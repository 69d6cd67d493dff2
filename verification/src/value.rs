//! Python values as the runtime sees them: immediates held inline and heap
//! objects referenced by id, plus call arguments.
use vstd::prelude::*;
use vstd::string::StrSliceExecFns;
use crate::exception::{ExcType, RunError, is_error};
use crate::heap::{Heap, HeapData, HeapView, dropped_from, lemma_dropped_none, lemma_dropped_step, pair_values, pairs_dropped_from, retained, same_objects, value_released};
use crate::text::{push_str, str_equals, str_to_string};

verus! {

/// Id of an entry in the heap.
pub type HeapId = usize;

/// Python types of the values this runtime handles.
#[derive(Debug, Clone, Copy, PartialEq, Eq, Structural)]
pub enum Type {
    NoneType,
    Bool,
    Int,
    Str,
    Bytes,
    List,
    Tuple,
    Dict,
    PySet,
    FrozenSet,
    Range,
    Iterator,
    Date,
    TimeDelta,
    TimeZone,
    Function,
    BuiltinFunction,
    Type,
    Coroutine,
    Future,
    Module,
}

/// A Python value. Immediates are held inline; containers and other objects live
/// on the heap and are referenced by id.
#[derive(Debug)]
pub enum Value {
    /// An unassigned namespace slot.
    Undefined,
    NoneValue,
    Bool(bool),
    Int(i64),
    Str(String),
    /// A heap object.
    Ref(HeapId),
    /// A function defined in Python code, by function id.
    DefFunction(u32),
    /// A builtin function, by builtin id.
    Builtin(u32),
    /// A type object, as returned by `type()`.
    TypeObject(Type),
    /// A host (external) function, by id.
    ExtFunction(u32),
    /// A function of a standard-library module, by id.
    ModuleFunction(u32),
    /// The future of an external call, by call id.
    ExternalFuture(u32),
}

/// The Python name of a type.
pub open spec fn type_str_spec(t: Type) -> Seq<char> {
    match t {
        Type::NoneType => "NoneType"@,
        Type::Bool => "bool"@,
        Type::Int => "int"@,
        Type::Str => "str"@,
        Type::Bytes => "bytes"@,
        Type::List => "list"@,
        Type::Tuple => "tuple"@,
        Type::Dict => "dict"@,
        Type::PySet => "set"@,
        Type::FrozenSet => "frozenset"@,
        Type::Range => "range"@,
        Type::Iterator => "iterator"@,
        Type::Date => "date"@,
        Type::TimeDelta => "timedelta"@,
        Type::TimeZone => "timezone"@,
        Type::Function => "function"@,
        Type::BuiltinFunction => "builtin_function_or_method"@,
        Type::Type => "type"@,
        Type::Coroutine => "coroutine"@,
        Type::Future => "Future"@,
        Type::Module => "module"@,
    }
}

/// The Python name of a type.
pub fn type_str(t: Type) -> (r: &'static str)
    ensures
        r@ == type_str_spec(t),
{
    match t {
        Type::NoneType => "NoneType",
        Type::Bool => "bool",
        Type::Int => "int",
        Type::Str => "str",
        Type::Bytes => "bytes",
        Type::List => "list",
        Type::Tuple => "tuple",
        Type::Dict => "dict",
        Type::PySet => "set",
        Type::FrozenSet => "frozenset",
        Type::Range => "range",
        Type::Iterator => "iterator",
        Type::Date => "date",
        Type::TimeDelta => "timedelta",
        Type::TimeZone => "timezone",
        Type::Function => "function",
        Type::BuiltinFunction => "builtin_function_or_method",
        Type::Type => "type",
        Type::Coroutine => "coroutine",
        Type::Future => "Future",
        Type::Module => "module",
    }
}

/// The type of the heap object `data`.
pub open spec fn data_type_spec(data: HeapData) -> Type {
    match data {
        HeapData::List(_) => Type::List,
        HeapData::Tuple(_) => Type::Tuple,
        HeapData::Dict(_) => Type::Dict,
        HeapData::PySet(_) => Type::PySet,
        HeapData::FrozenSet(_) => Type::FrozenSet,
        HeapData::Bytes(_) => Type::Bytes,
        HeapData::Range(_) => Type::Range,
        HeapData::Iter(_) => Type::Iterator,
        HeapData::Date(_) => Type::Date,
        HeapData::TimeDelta(_) => Type::TimeDelta,
        HeapData::TimeZone(_) => Type::TimeZone,
        HeapData::Coroutine(_) => Type::Coroutine,
        HeapData::GatherFuture(_) => Type::Future,
        HeapData::Module(_) => Type::Module,
    }
}

/// The type of a value; a reference to a missing heap entry reads as `NoneType`.
pub open spec fn py_type_spec(v: Value, heap: HeapView) -> Type {
    match v {
        Value::Undefined | Value::NoneValue => Type::NoneType,
        Value::Bool(_) => Type::Bool,
        Value::Int(_) => Type::Int,
        Value::Str(_) => Type::Str,
        Value::Ref(id) => if heap.live(id) { data_type_spec(heap.data(id)) } else { Type::NoneType },
        Value::DefFunction(_) => Type::Function,
        Value::Builtin(_) | Value::ExtFunction(_) | Value::ModuleFunction(_) => Type::BuiltinFunction,
        Value::TypeObject(_) => Type::Type,
        Value::ExternalFuture(_) => Type::Future,
    }
}

/// The type of a value.
pub fn py_type(v: &Value, heap: &Heap) -> (r: Type)
    ensures
        r == py_type_spec(*v, heap@),
{
    match v {
        Value::Undefined | Value::NoneValue => Type::NoneType,
        Value::Bool(_) => Type::Bool,
        Value::Int(_) => Type::Int,
        Value::Str(_) => Type::Str,
        Value::Ref(id) => {
            if heap.is_live(*id) {
                match heap.get(*id) {
                    HeapData::List(_) => Type::List,
                    HeapData::Tuple(_) => Type::Tuple,
                    HeapData::Dict(_) => Type::Dict,
                    HeapData::PySet(_) => Type::PySet,
                    HeapData::FrozenSet(_) => Type::FrozenSet,
                    HeapData::Bytes(_) => Type::Bytes,
                    HeapData::Range(_) => Type::Range,
                    HeapData::Iter(_) => Type::Iterator,
                    HeapData::Date(_) => Type::Date,
                    HeapData::TimeDelta(_) => Type::TimeDelta,
                    HeapData::TimeZone(_) => Type::TimeZone,
                    HeapData::Coroutine(_) => Type::Coroutine,
                    HeapData::GatherFuture(_) => Type::Future,
                    HeapData::Module(_) => Type::Module,
                }
            } else {
                Type::NoneType
            }
        },
        Value::DefFunction(_) => Type::Function,
        Value::Builtin(_) | Value::ExtFunction(_) | Value::ModuleFunction(_) => Type::BuiltinFunction,
        Value::TypeObject(_) => Type::Type,
        Value::ExternalFuture(_) => Type::Future,
    }
}

/// Python truthiness: `None` and `False` are false, numbers are true when nonzero,
/// strings and containers when nonempty, ranges when they hold a value, durations
/// when not zero; every other object is true.
pub open spec fn truthy(v: Value, heap: HeapView) -> bool {
    match v {
        Value::Undefined | Value::NoneValue => false,
        Value::Bool(b) => b,
        Value::Int(n) => n != 0,
        Value::Str(s) => s@.len() > 0,
        Value::Ref(id) => if !heap.live(id) { false } else {
            match heap.data(id) {
                HeapData::List(v) | HeapData::Tuple(v) | HeapData::PySet(v) | HeapData::FrozenSet(v) => v@.len() > 0,
                HeapData::Dict(p) => p@.len() > 0,
                HeapData::Bytes(b) => b@.len() > 0,
                HeapData::Range(r) => r.step != 0 && r.len_spec() > 0,
                HeapData::TimeDelta(t) => t.days != 0 || t.seconds != 0 || t.microseconds != 0,
                _ => true,
            }
        },
        _ => true,
    }
}

/// Python truthiness of a value (`bool(v)`).
pub fn py_bool(v: &Value, heap: &Heap) -> (r: bool)
    ensures
        r == truthy(*v, heap@),
{
    match v {
        Value::Undefined | Value::NoneValue => false,
        Value::Bool(b) => *b,
        Value::Int(n) => *n != 0,
        Value::Str(s) => s.unicode_len() > 0,
        Value::Ref(id) => {
            if !heap.is_live(*id) {
                return false;
            }
            match heap.get(*id) {
                HeapData::List(v) | HeapData::Tuple(v) | HeapData::PySet(v) | HeapData::FrozenSet(v) => v.len() > 0,
                HeapData::Dict(p) => p.len() > 0,
                HeapData::Bytes(b) => b.len() > 0,
                HeapData::Range(r) => r.step != 0 && !r.is_empty(),
                HeapData::TimeDelta(t) => t.days != 0 || t.seconds != 0 || t.microseconds != 0,
                _ => true,
            }
        },
        _ => true,
    }
}

/// The integer a value stands for when used as an integer: ints, and bools as 0/1.
pub open spec fn as_int_spec(v: Value) -> Option<int> {
    match v {
        Value::Int(n) => Some(n as int),
        Value::Bool(b) => Some(if b { 1int } else { 0int }),
        _ => None,
    }
}

/// `"'{type}' object cannot be interpreted as an integer"`.
pub open spec fn not_integer_message(t: Type) -> Seq<char> {
    "'"@ + type_str_spec(t) + "' object cannot be interpreted as an integer"@
}

/// Reads a value as an integer (ints and bools), raising TypeError otherwise.
pub fn as_int(v: &Value, heap: &Heap) -> (r: Result<i64, RunError>)
    ensures
        match r {
            Ok(n) => as_int_spec(*v) == Some(n as int),
            Err(e) => as_int_spec(*v) is None && e.exc_type == ExcType::TypeError
                && e.message@ == not_integer_message(py_type_spec(*v, heap@)),
        },
{
    match v {
        Value::Int(n) => Ok(*n),
        Value::Bool(b) => Ok(if *b { 1 } else { 0 }),
        _ => {
            let t = py_type(v, heap);
            let mut m = str_to_string("'");
            push_str(&mut m, type_str(t));
            push_str(&mut m, "' object cannot be interpreted as an integer");
            Err(RunError { exc_type: ExcType::TypeError, message: m })
        },
    }
}

impl Value {
    /// A copy of the value that does not touch reference counts.
    pub fn clone_bits(&self) -> (r: Value)
        ensures
            r == *self,
    {
        match self {
            Value::Undefined => Value::Undefined,
            Value::NoneValue => Value::NoneValue,
            Value::Bool(b) => Value::Bool(*b),
            Value::Int(n) => Value::Int(*n),
            Value::Str(s) => Value::Str(s.clone()),
            Value::Ref(id) => Value::Ref(*id),
            Value::DefFunction(f) => Value::DefFunction(*f),
            Value::Builtin(f) => Value::Builtin(*f),
            Value::TypeObject(t) => Value::TypeObject(*t),
            Value::ExtFunction(f) => Value::ExtFunction(*f),
            Value::ModuleFunction(f) => Value::ModuleFunction(*f),
            Value::ExternalFuture(c) => Value::ExternalFuture(*c),
        }
    }

    /// A copy of the value; a heap reference gains one reference count.
    pub fn clone_with_heap(&self, heap: &mut Heap) -> (r: Value)
        requires
            old(heap).wf(),
        ensures
            r == *self,
            final(heap).wf(),
            same_objects(old(heap)@, final(heap)@),
            retained(old(heap)@, final(heap)@, *self),
    {
        match self {
            Value::Ref(id) => {
                if heap.is_live(*id) {
                    heap.inc_ref(*id);
                    proof {
                        assert(heap@.slots =~= old(heap)@.slots.update(*id as int, Some(crate::heap::HeapValue {
                            refcount: if old(heap)@.refcount(*id) == usize::MAX { usize::MAX } else { (old(heap)@.refcount(*id) + 1) as usize },
                            data: old(heap)@.data(*id),
                        })));
                        assert forall|j: HeapId| #[trigger] old(heap)@.live(j) == heap@.live(j) by {
                            if j != *id && j < old(heap)@.slots.len() {
                                assert(heap@.slots[j as int] == old(heap)@.slots[j as int]);
                            }
                        }
                        assert forall|j: HeapId| old(heap)@.live(j) implies #[trigger] old(heap)@.data(j) == heap@.data(j) by {
                            if j != *id {
                                assert(heap@.slots[j as int] == old(heap)@.slots[j as int]);
                            }
                        }
                    }
                }
                Value::Ref(*id)
            },
            _ => self.clone_bits(),
        }
    }

    /// Drops the value, releasing its heap reference if it holds one.
    pub fn drop_with_heap(self, heap: &mut Heap)
        requires
            old(heap).wf(),
        ensures
            final(heap).wf(),
            final(heap)@.slots.len() == old(heap)@.slots.len(),
            forall|j: HeapId| #[trigger] final(heap)@.live(j) ==> old(heap)@.live(j) && final(heap)@.data(j) == old(heap)@.data(j),
            !(self is Ref) ==> final(heap)@ == old(heap)@,
            value_released(old(heap)@, final(heap)@, self),
            final(heap)@.free.len() >= old(heap)@.free.len(),
            final(heap).utc_object() == old(heap).utc_object(),
    {
        if let Value::Ref(id) = self {
            heap.release(id);
        }
    }
}

/// Arguments of a call: positional values, then keyword arguments as (key, value) pairs.
#[derive(Debug)]
pub struct ArgValues {
    pub positional: Vec<Value>,
    pub kwargs: Vec<(Value, Value)>,
}

/// `"{name}() takes no keyword arguments"`.
pub open spec fn no_kwargs_message(name: Seq<char>) -> Seq<char> {
    name + "() takes no keyword arguments"@
}

/// `"{name}() takes exactly one argument ({n} given)"`.
pub open spec fn exactly_one_message(name: Seq<char>, n: int) -> Seq<char> {
    name + "() takes exactly one argument ("@ + crate::text::int_repr(n) + " given)"@
}

/// Drops every value of a list.
pub fn drop_values(vs: Vec<Value>, heap: &mut Heap)
    requires
        old(heap).wf(),
    ensures
        final(heap).wf(),
        final(heap)@.slots.len() == old(heap)@.slots.len(),
        vs@.len() == 0 ==> final(heap)@ == old(heap)@,
        dropped_from(old(heap)@, final(heap)@, vs@, 0),
        crate::heap::only_frees(old(heap)@, final(heap)@),
        final(heap)@.free.len() >= old(heap)@.free.len(),
        final(heap).utc_object() == old(heap).utc_object(),
{
    let ghost n = vs@.len();
    let ghost orig = vs@;
    proof {
        lemma_dropped_none(old(heap)@, orig);
    }
    let mut vs = vs;
    while vs.len() > 0
        invariant
            heap.wf(),
            heap@.slots.len() == old(heap)@.slots.len(),
            vs@.len() <= n,
            n == 0 ==> heap@ == old(heap)@,
            n == orig.len(),
            vs@ == orig.take(vs@.len() as int),
            dropped_from(old(heap)@, heap@, orig, vs@.len() as int),
            crate::heap::only_frees(old(heap)@, heap@),
            heap@.free.len() >= old(heap)@.free.len(),
            heap.utc_object() == old(heap).utc_object(),
        decreases vs.len(),
    {
        let ghost before = heap@;
        let v = vs.pop().unwrap();
        proof {
            assert(v == orig[vs@.len() as int]);
            assert(vs@ == orig.take(vs@.len() as int));
        }
        v.drop_with_heap(heap);
        proof {
            lemma_dropped_step(old(heap)@, before, heap@, orig, vs@.len() as int);
            assert forall|j: HeapId| #[trigger] heap@.live(j) implies old(heap)@.live(j) && heap@.data(j) == old(heap)@.data(j) by {
                assert(before.live(j));
            }
        }
    }
}

/// Drops every (key, value) pair of a keyword-argument list.
pub fn drop_pairs(kw: Vec<(Value, Value)>, heap: &mut Heap)
    requires
        old(heap).wf(),
    ensures
        final(heap).wf(),
        final(heap)@.slots.len() == old(heap)@.slots.len(),
        kw@.len() == 0 ==> final(heap)@ == old(heap)@,
        pairs_dropped_from(old(heap)@, final(heap)@, kw@, 0),
        final(heap)@.free.len() >= old(heap)@.free.len(),
        final(heap).utc_object() == old(heap).utc_object(),
{
    let ghost n = kw@.len();
    let ghost orig = kw@;
    let ghost flat = pair_values(orig);
    proof {
        lemma_dropped_none(old(heap)@, flat);
    }
    let mut kw = kw;
    while kw.len() > 0
        invariant
            heap.wf(),
            heap@.slots.len() == old(heap)@.slots.len(),
            kw@.len() <= n,
            n == 0 ==> heap@ == old(heap)@,
            n == orig.len(),
            heap@.free.len() >= old(heap)@.free.len(),
            flat == pair_values(orig),
            kw@ == orig.take(kw@.len() as int),
            dropped_from(old(heap)@, heap@, flat, 2 * (kw@.len() as int)),
            heap.utc_object() == old(heap).utc_object(),
        decreases kw.len(),
    {
        let ghost before = heap@;
        let (k, v) = kw.pop().unwrap();
        let ghost j: int = kw@.len() as int;
        proof {
            assert((k, v) == orig[j]);
            assert(kw@ == orig.take(j));
            assert(flat[2 * j + 1] == k);
            assert(flat[2 * j] == v);
        }
        k.drop_with_heap(heap);
        let ghost mid = heap@;
        proof {
            lemma_dropped_step(old(heap)@, before, mid, flat, 2 * j + 1);
        }
        v.drop_with_heap(heap);
        proof {
            lemma_dropped_step(old(heap)@, mid, heap@, flat, 2 * j);
        }
    }
}

/// Drops an optional value.
pub fn drop_option(v: Option<Value>, heap: &mut Heap)
    requires
        old(heap).wf(),
    ensures
        final(heap).wf(),
        final(heap)@.slots.len() == old(heap)@.slots.len(),
        !(v matches Some(Value::Ref(_))) ==> final(heap)@ == old(heap)@,
        match v {
            Some(x) => value_released(old(heap)@, final(heap)@, x),
            None => final(heap)@ == old(heap)@,
        },
{
    if let Some(x) = v {
        x.drop_with_heap(heap);
    }
}

/// `"{func}() got multiple values for keyword argument '{key}'"`.
pub open spec fn multiple_values_message(func: Seq<char>, key: Seq<char>) -> Seq<char> {
    func + "() got multiple values for keyword argument '"@ + key + "'"@
}

/// The message for a keyword argument whose name is not a string.
pub open spec fn keywords_must_be_strings() -> Seq<char> {
    "keywords must be strings"@
}

/// Reading keyword arguments that may only be `first` or `second`, each at most once:
/// the two values found (in that order), or the TypeError message of the first
/// offending keyword (an unknown keyword is reported as one of `unexpected_func`).
pub open spec fn kw_parse(kwargs: Seq<(Value, Value)>, func: Seq<char>, unexpected_func: Seq<char>, first: Seq<char>, second: Seq<char>) -> Result<(Option<Value>, Option<Value>), Seq<char>>
    decreases kwargs.len(),
{
    if kwargs.len() == 0 {
        Ok((None, None))
    } else {
        match kw_parse(kwargs.drop_last(), func, unexpected_func, first, second) {
            Err(m) => Err(m),
            Ok((x, y)) => {
                let (k, v) = kwargs.last();
                match k {
                    Value::Str(s) => if s@ == first {
                        if x is Some { Err(multiple_values_message(func, first)) } else { Ok((Some(v), y)) }
                    } else if s@ == second {
                        if y is Some { Err(multiple_values_message(func, second)) } else { Ok((x, Some(v))) }
                    } else {
                        Err(crate::exception::unexpected_keyword_message(unexpected_func, s@))
                    },
                    _ => Err(keywords_must_be_strings()),
                }
            },
        }
    }
}

/// The value of the pair at position `at` of a keyword list, if a position is given.
pub open spec fn value_at(kw: Seq<(Value, Value)>, at: Option<usize>) -> Option<Value> {
    match at {
        Some(a) => Some(kw[a as int].1),
        None => None,
    }
}

/// Reads the keyword arguments `first` and `second` of a call to `func_name`, each
/// optional. TypeError for any other keyword, a keyword given twice, or a keyword
/// that is not a string; then every key and value is dropped.
pub fn parse_named_kwargs_pair(kwargs: Vec<(Value, Value)>, func_name: &str, unexpected_func: &str, first: &str, second: &str, heap: &mut Heap) -> (r: Result<(Option<Value>, Option<Value>), RunError>)
    requires
        old(heap).wf(),
    ensures
        final(heap).wf(),
        match kw_parse(kwargs@, func_name@, unexpected_func@, first@, second@) {
            Ok(p) => r == Ok::<(Option<Value>, Option<Value>), RunError>(p) && final(heap)@ == old(heap)@,
            Err(m) => r matches Err(e) && is_error(e, ExcType::TypeError, m)
                && pairs_dropped_from(old(heap)@, final(heap)@, kwargs@, 0),
        },
        crate::heap::room_kept(old(heap)@, final(heap)@),
{
    let ghost all = kwargs@;
    let mut fx: Option<usize> = None;
    let mut fy: Option<usize> = None;
    let mut i: usize = 0;
    while i < kwargs.len()
        invariant
            all == kwargs@,
            i <= all.len(),
            kw_parse(all.take(i as int), func_name@, unexpected_func@, first@, second@)
                == Ok::<(Option<Value>, Option<Value>), Seq<char>>((value_at(all, fx), value_at(all, fy))),
            fx matches Some(a) ==> a < i,
            fy matches Some(a) ==> a < i,
            fx matches Some(a) ==> all[a as int].0 matches Value::Str(s) && s@ == first@,
            fy matches Some(a) ==> all[a as int].0 matches Value::Str(s) && s@ == second@,
            i == (if fx is Some { 1int } else { 0int }) + (if fy is Some { 1int } else { 0int }),
            fx is Some && fy is Some ==> fx != fy,
            heap.wf(),
            heap@ == old(heap)@,
        decreases all.len() - i,
    {
        proof {
            assert(all.take(i + 1).drop_last() == all.take(i as int));
            assert(all.take(i + 1).last() == all[i as int]);
        }
        let err = match &kwargs[i].0 {
            Value::Str(s) => {
                if str_equals(s.as_str(), first) {
                    if fx.is_some() {
                        let mut m = str_to_string(func_name);
                        push_str(&mut m, "() got multiple values for keyword argument '");
                        push_str(&mut m, first);
                        push_str(&mut m, "'");
                        Some(RunError { exc_type: ExcType::TypeError, message: m })
                    } else {
                        fx = Some(i);
                        None
                    }
                } else if str_equals(s.as_str(), second) {
                    if fy.is_some() {
                        let mut m = str_to_string(func_name);
                        push_str(&mut m, "() got multiple values for keyword argument '");
                        push_str(&mut m, second);
                        push_str(&mut m, "'");
                        Some(RunError { exc_type: ExcType::TypeError, message: m })
                    } else {
                        fy = Some(i);
                        None
                    }
                } else {
                    Some(crate::exception::type_error_unexpected_keyword(unexpected_func, s.as_str()))
                }
            },
            _ => Some(RunError::from_str(ExcType::TypeError, "keywords must be strings")),
        };
        if let Some(e) = err {
            proof { lemma_kw_parse_err_sticky(all, (i + 1) as nat, func_name@, unexpected_func@, first@, second@); }
            drop_pairs(kwargs, heap);
            return Err(e);
        }
        i = i + 1;
    }
    proof {
        assert(all.take(all.len() as int) == all);
    }
    let mut x: Option<Value> = None;
    let mut y: Option<Value> = None;
    let mut kw = kwargs;
    while kw.len() > 0
        invariant
            kw@.len() <= all.len(),
            kw@ == all.take(kw@.len() as int),
            fx matches Some(a) ==> a < all.len(),
            fy matches Some(a) ==> a < all.len(),
            all.len() == (if fx is Some { 1int } else { 0int }) + (if fy is Some { 1int } else { 0int }),
            fx is Some && fy is Some ==> fx != fy,
            heap.wf(),
            heap@ == old(heap)@,
            x == (if fx matches Some(a) && a >= kw@.len() { value_at(all, fx) } else { None::<Value> }),
            y == (if fy matches Some(a) && a >= kw@.len() { value_at(all, fy) } else { None::<Value> }),
        decreases kw@.len(),
    {
        let ghost before = kw@;
        let (_k, v) = kw.pop().unwrap();
        let j = kw.len();
        proof {
            assert(before == all.take(j + 1));
            assert(all[j as int] == before[j as int]);
            assert(kw@ == before.drop_last());
            assert(all.take(j as int) == all.take(j + 1).drop_last());
        }
        if fx == Some(j) {
            x = Some(v);
        } else {
            y = Some(v);
        }
    }
    Ok((x, y))
}

/// Once reading a prefix of the keyword arguments fails, reading the whole list
/// fails with the same message.
proof fn lemma_kw_parse_err_sticky(all: Seq<(Value, Value)>, i: nat, func: Seq<char>, uf: Seq<char>, first: Seq<char>, second: Seq<char>)
    requires
        i <= all.len(),
        kw_parse(all.take(i as int), func, uf, first, second) is Err,
    ensures
        kw_parse(all, func, uf, first, second) == kw_parse(all.take(i as int), func, uf, first, second),
    decreases all.len() - i,
{
    if i < all.len() {
        assert(all.take(i + 1int).drop_last() == all.take(i as int));
        lemma_kw_parse_err_sticky(all, i + 1, func, uf, first, second);
    } else {
        assert(all.take(i as int) == all);
    }
}

impl ArgValues {
    /// Drops every argument.
    pub fn drop_with_heap(self, heap: &mut Heap)
        requires
            old(heap).wf(),
        ensures
            final(heap).wf(),
            final(heap)@.slots.len() == old(heap)@.slots.len(),
            self.positional@.len() == 0 && self.kwargs@.len() == 0 ==> final(heap)@ == old(heap)@,
            exists|m: HeapView| #[trigger] dropped_from(old(heap)@, m, self.positional@, 0)
                && pairs_dropped_from(m, final(heap)@, self.kwargs@, 0),
            crate::heap::room_kept(old(heap)@, final(heap)@),
    {
        let ArgValues { positional, kwargs } = self;
        drop_values(positional, heap);
        let ghost m = heap@;
        drop_pairs(kwargs, heap);
        proof {
            assert(dropped_from(old(heap)@, m, self.positional@, 0) && pairs_dropped_from(m, heap@, self.kwargs@, 0));
        }
    }

    /// The single positional argument of a call that takes exactly one and no
    /// keyword arguments. TypeError otherwise (all arguments are dropped).
    pub fn get_one_arg(self, name: &str, heap: &mut Heap) -> (r: Result<Value, RunError>)
        requires
            old(heap).wf(),
        ensures
            final(heap).wf(),
            match r {
                Ok(v) => self.kwargs@.len() == 0 && self.positional@.len() == 1 && v == self.positional@[0]
                    && final(heap)@ == old(heap)@,
                Err(e) => e.exc_type == ExcType::TypeError && if self.kwargs@.len() > 0 {
                    e.message@ == no_kwargs_message(name@)
                } else {
                    self.positional@.len() != 1 && e.message@ == exactly_one_message(name@, self.positional@.len() as int)
                },
            },
            r is Err ==> crate::heap::args_released(old(heap)@, final(heap)@, self.positional@, self.kwargs@),
    {
        if self.kwargs.len() > 0 {
            let mut m = str_to_string(name);
            push_str(&mut m, "() takes no keyword arguments");
            self.drop_with_heap(heap);
            return Err(RunError { exc_type: ExcType::TypeError, message: m });
        }
        if self.positional.len() != 1 {
            let n = self.positional.len();
            let mut m = str_to_string(name);
            push_str(&mut m, "() takes exactly one argument (");
            crate::text::push_u64(&mut m, n as u64);
            push_str(&mut m, " given)");
            self.drop_with_heap(heap);
            return Err(RunError { exc_type: ExcType::TypeError, message: m });
        }
        let ArgValues { positional, kwargs } = self;
        let mut positional = positional;
        let v = positional.pop().unwrap();
        proof {
            assert(v == self.positional@[0]);
        }
        Ok(v)
    }

    /// The first positional argument and the optional second one, for a call that
    /// takes one or two positional arguments and no keyword arguments. TypeError
    /// otherwise (all arguments are dropped).
    pub fn get_one_two_args(self, name: &str, heap: &mut Heap) -> (r: Result<(Value, Option<Value>), RunError>)
        requires
            old(heap).wf(),
        ensures
            final(heap).wf(),
            match r {
                Ok((a, b)) => self.kwargs@.len() == 0 && 1 <= self.positional@.len() <= 2 && a == self.positional@[0]
                    && (b matches Some(x) ==> self.positional@.len() == 2 && x == self.positional@[1])
                    && (b is None ==> self.positional@.len() == 1)
                    && final(heap)@ == old(heap)@,
                Err(e) => e.exc_type == ExcType::TypeError && if self.kwargs@.len() > 0 {
                    e.message@ == no_kwargs_message(name@)
                } else if self.positional@.len() == 0 {
                    e.message@ == crate::exception::at_least_message(name@, 1, 0)
                } else {
                    self.positional@.len() > 2 && e.message@ == crate::exception::at_most_message(name@, 2, self.positional@.len() as int)
                },
            },
            r is Err ==> crate::heap::args_released(old(heap)@, final(heap)@, self.positional@, self.kwargs@),
    {
        if self.kwargs.len() > 0 {
            let mut m = str_to_string(name);
            push_str(&mut m, "() takes no keyword arguments");
            self.drop_with_heap(heap);
            return Err(RunError { exc_type: ExcType::TypeError, message: m });
        }
        let n = self.positional.len();
        if n == 0 {
            self.drop_with_heap(heap);
            return Err(crate::exception::type_error_at_least(name, 1, 0));
        }
        if n > 2 {
            self.drop_with_heap(heap);
            return Err(crate::exception::type_error_at_most(name, 2, n));
        }
        let ArgValues { positional, kwargs } = self;
        let mut positional = positional;
        if n == 2 {
            let b = positional.pop().unwrap();
            let a = positional.pop().unwrap();
            Ok((a, Some(b)))
        } else {
            let a = positional.pop().unwrap();
            Ok((a, None))
        }
    }

    /// Arguments made of positional values only.
    pub fn positional_only(positional: Vec<Value>) -> (r: ArgValues)
        ensures
            r.positional == positional,
            r.kwargs@.len() == 0,
    {
        ArgValues { positional, kwargs: Vec::new() }
    }
}

} // verus!
