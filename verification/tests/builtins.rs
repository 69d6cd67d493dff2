//! The builtins `min`, `max`, `sorted`, `reversed`, `type`, `setattr` and `hash`,
//! and iteration over the values they read.

use monty::builtins::enumerate::builtin_enumerate;
use monty::builtins::hash::builtin_hash;
use monty::builtins::map::{builtin_map, map_results};
use monty::builtins::print::builtin_print;
use monty::exception::RunError;
use monty::io::{PrintWriter, PrintWriterCallback};
use monty::builtins::min_max::{builtin_max, builtin_min, CallStep};
use monty::builtins::reversed::builtin_reversed;
use monty::builtins::setattr::builtin_setattr;
use monty::builtins::sorted::builtin_sorted;
use monty::builtins::type_::builtin_type;
use monty::exception::ExcType;
use monty::heap::{Heap, HeapData};
use monty::iter::{advance, iterate, iterator_next, MontyIter};
use monty::range::Range;
use monty::value::{ArgValues, Type, Value};

struct NoCallback;

impl PrintWriterCallback for NoCallback {
    fn stdout_write(&mut self, _: &str) -> Result<(), RunError> {
        Ok(())
    }

    fn stdout_push(&mut self, _: char) -> Result<(), RunError> {
        Ok(())
    }
}

fn args(positional: Vec<Value>) -> ArgValues {
    ArgValues::positional_only(positional)
}

fn with_kw(positional: Vec<Value>, kw: Vec<(&str, Value)>) -> ArgValues {
    ArgValues { positional, kwargs: kw.into_iter().map(|(k, v)| (Value::Str(k.to_owned()), v)).collect() }
}

fn list(heap: &mut Heap, items: Vec<Value>) -> Value {
    Value::Ref(heap.allocate(HeapData::List(items)).unwrap())
}

fn ints(heap: &Heap, v: &Value) -> Vec<i64> {
    let items = match v {
        Value::Ref(id) => match heap.get(*id) {
            HeapData::List(items) => items,
            other => panic!("expected a list, got {other:?}"),
        },
        other => panic!("expected a heap reference, got {other:?}"),
    };
    items
        .iter()
        .map(|x| match x {
            Value::Int(n) => *n,
            other => panic!("expected an int, got {other:?}"),
        })
        .collect()
}

fn done(step: CallStep<impl std::fmt::Debug>) -> Value {
    match step {
        CallStep::Done(v) => v,
        CallStep::NeedKeys(p) => panic!("expected a result, got a key request {p:?}"),
    }
}

#[test]
fn min_and_max_of_arguments() {
    let mut heap = Heap::new(8);
    let v = done(builtin_min(args(vec![Value::Int(3), Value::Int(1), Value::Int(2)]), &mut heap).unwrap());
    assert!(matches!(v, Value::Int(1)));
    let v = done(builtin_max(args(vec![Value::Int(3), Value::Int(1), Value::Int(2)]), &mut heap).unwrap());
    assert!(matches!(v, Value::Int(3)));
    let v = done(builtin_max(args(vec![Value::Str("apple".to_owned()), Value::Str("pear".to_owned())]), &mut heap).unwrap());
    assert!(matches!(v, Value::Str(ref s) if s == "pear"));
}

#[test]
fn min_of_an_iterable_and_its_default() {
    let mut heap = Heap::new(8);
    let l = list(&mut heap, vec![Value::Int(5), Value::Int(-2), Value::Int(9)]);
    let v = done(builtin_min(args(vec![l]), &mut heap).unwrap());
    assert!(matches!(v, Value::Int(-2)));

    let empty = list(&mut heap, vec![]);
    let e = builtin_min(args(vec![empty]), &mut heap).unwrap_err();
    assert_eq!(e.exc_type, ExcType::ValueError);
    assert_eq!(e.message, "min() iterable argument is empty");

    let empty = list(&mut heap, vec![]);
    let v = done(builtin_max(with_kw(vec![empty], vec![("default", Value::Int(7))]), &mut heap).unwrap());
    assert!(matches!(v, Value::Int(7)));
}

#[test]
fn min_and_max_errors() {
    let mut heap = Heap::new(8);
    let e = builtin_min(args(vec![]), &mut heap).unwrap_err();
    assert_eq!(e.exc_type, ExcType::TypeError);
    assert_eq!(e.message, "min expected at least 1 argument, got 0");

    let e = builtin_min(args(vec![Value::Int(1), Value::Str("a".to_owned())]), &mut heap).unwrap_err();
    assert_eq!(e.exc_type, ExcType::TypeError);
    assert_eq!(e.message, "'<' not supported between instances of 'str' and 'int'");

    let e = builtin_max(with_kw(vec![Value::Int(1), Value::Int(2)], vec![("default", Value::Int(0))]), &mut heap)
        .unwrap_err();
    assert_eq!(e.message, "Cannot specify a default for max() with multiple positional arguments");

    let e = builtin_max(with_kw(vec![Value::Int(1)], vec![("bogus", Value::Int(0))]), &mut heap).unwrap_err();
    assert_eq!(e.exc_type, ExcType::TypeError);
}

#[test]
fn min_with_key_picks_the_first_smallest_key() {
    let mut heap = Heap::new(8);
    let step = builtin_min(
        with_kw(vec![Value::Str("ccc".to_owned()), Value::Str("a".to_owned()), Value::Str("b".to_owned())], vec![(
            "key",
            Value::Builtin(0),
        )]),
        &mut heap,
    )
    .unwrap();
    let pending = match step {
        CallStep::NeedKeys(p) => p,
        CallStep::Done(v) => panic!("expected a key request, got {v:?}"),
    };
    assert_eq!(pending.candidates.len(), 3);
    // The keys are the lengths: 3, 1, 1.
    let v = pending.finish(vec![Value::Int(3), Value::Int(1), Value::Int(1)], &mut heap).unwrap();
    assert!(matches!(v, Value::Str(ref s) if s == "a"));
}

#[test]
fn sorted_sorts_stably_and_reverses() {
    let mut heap = Heap::new(8);
    let l = list(&mut heap, vec![Value::Int(3), Value::Int(1), Value::Int(2)]);
    let v = done(builtin_sorted(args(vec![l]), &mut heap).unwrap());
    assert_eq!(ints(&heap, &v), vec![1, 2, 3]);

    let l = list(&mut heap, vec![Value::Int(3), Value::Int(1), Value::Int(2)]);
    let v = done(builtin_sorted(with_kw(vec![l], vec![("reverse", Value::Bool(true))]), &mut heap).unwrap());
    assert_eq!(ints(&heap, &v), vec![3, 2, 1]);

    let r = Value::Ref(heap.allocate(HeapData::Range(Range::new(0, 10, 3))).unwrap());
    let v = done(builtin_sorted(with_kw(vec![r], vec![("reverse", Value::Bool(true))]), &mut heap).unwrap());
    assert_eq!(ints(&heap, &v), vec![9, 6, 3, 0]);
}

#[test]
fn sorted_with_keys_orders_by_key() {
    let mut heap = Heap::new(8);
    let l = list(&mut heap, vec![Value::Int(10), Value::Int(20), Value::Int(30)]);
    let pending = match builtin_sorted(with_kw(vec![l], vec![("key", Value::Builtin(0))]), &mut heap).unwrap() {
        CallStep::NeedKeys(p) => p,
        CallStep::Done(v) => panic!("expected a key request, got {v:?}"),
    };
    let v = pending.finish(vec![Value::Int(2), Value::Int(0), Value::Int(2)], &mut heap).unwrap();
    assert_eq!(ints(&heap, &v), vec![20, 10, 30]);
}

#[test]
fn sorted_errors() {
    let mut heap = Heap::new(8);
    let l = list(&mut heap, vec![Value::Int(1), Value::Str("x".to_owned())]);
    let e = builtin_sorted(args(vec![l]), &mut heap).unwrap_err();
    assert_eq!(e.exc_type, ExcType::TypeError);
    assert_eq!(e.message, "'<' not supported between instances of 'str' and 'int'");
    let e = builtin_sorted(args(vec![]), &mut heap).unwrap_err();
    assert_eq!(e.message, "sorted expected 1 argument, got 0");
    let e = builtin_sorted(args(vec![Value::Int(3)]), &mut heap).unwrap_err();
    assert_eq!(e.message, "'int' object is not iterable");
}

#[test]
fn reversed_gives_values_backwards() {
    let mut heap = Heap::new(8);
    let l = list(&mut heap, vec![Value::Int(1), Value::Int(2), Value::Int(3)]);
    let v = builtin_reversed(args(vec![l]), &mut heap).unwrap();
    assert_eq!(ints(&heap, &v), vec![3, 2, 1]);
    let v = builtin_reversed(args(vec![Value::Str("ab".to_owned())]), &mut heap).unwrap();
    match &v {
        Value::Ref(id) => match heap.get(*id) {
            HeapData::List(items) => {
                assert!(matches!(&items[0], Value::Str(s) if s == "b"));
                assert!(matches!(&items[1], Value::Str(s) if s == "a"));
            }
            other => panic!("expected a list, got {other:?}"),
        },
        other => panic!("expected a heap reference, got {other:?}"),
    }
}

#[test]
fn type_names_the_type() {
    let mut heap = Heap::new(8);
    assert!(matches!(builtin_type(args(vec![Value::Int(1)]), &mut heap).unwrap(), Value::TypeObject(Type::Int)));
    let l = list(&mut heap, vec![]);
    assert!(matches!(builtin_type(args(vec![l]), &mut heap).unwrap(), Value::TypeObject(Type::List)));
    let e = builtin_type(args(vec![]), &mut heap).unwrap_err();
    assert_eq!(e.message, "type() takes exactly one argument (0 given)");
}

#[test]
fn setattr_raises_attribute_error() {
    let mut heap = Heap::new(8);
    let e = builtin_setattr(args(vec![Value::Int(1), Value::Str("x".to_owned()), Value::Int(2)]), &mut heap)
        .unwrap_err();
    assert_eq!(e.exc_type, ExcType::AttributeError);
    assert_eq!(e.message, "'int' object has no attribute 'x'");
    let e = builtin_setattr(args(vec![Value::Int(1)]), &mut heap).unwrap_err();
    assert_eq!(e.message, "setattr expected 3 arguments, got 1");
    let e = builtin_setattr(args(vec![Value::Int(1), Value::Int(2), Value::Int(3)]), &mut heap).unwrap_err();
    assert_eq!(e.message, "attribute name must be string, not 'int'");
}

#[test]
fn hash_is_stable_and_rejects_unhashable_values() {
    let mut heap = Heap::new(8);
    let a = builtin_hash(args(vec![Value::Str("abc".to_owned())]), &mut heap).unwrap();
    let b = builtin_hash(args(vec![Value::Str("abc".to_owned())]), &mut heap).unwrap();
    match (a, b) {
        (Value::Int(x), Value::Int(y)) => assert_eq!(x, y),
        other => panic!("expected ints, got {other:?}"),
    }
    let l = list(&mut heap, vec![]);
    let e = builtin_hash(args(vec![l]), &mut heap).unwrap_err();
    assert_eq!(e.exc_type, ExcType::TypeError);
    assert_eq!(e.message, "unhashable type: 'list'");

    let inner = list(&mut heap, vec![]);
    let t = Value::Ref(heap.allocate(HeapData::Tuple(vec![Value::Int(1), inner])).unwrap());
    let e = builtin_hash(args(vec![t]), &mut heap).unwrap_err();
    assert_eq!(e.message, "unhashable type: 'list'");

    let t = Value::Ref(heap.allocate(HeapData::Tuple(vec![Value::Int(1), Value::Int(2)])).unwrap());
    assert!(matches!(builtin_hash(args(vec![t]), &mut heap).unwrap(), Value::Int(_)));
}

#[test]
fn iterate_collects_a_range() {
    let mut heap = Heap::new(8);
    let r = Value::Ref(heap.allocate(HeapData::Range(Range::new(5, 0, -2))).unwrap());
    let (it, items) = iterate(r, &mut heap).unwrap();
    it.drop_with_heap(&mut heap);
    let got: Vec<i64> = items.iter().map(|v| if let Value::Int(n) = v { *n } else { panic!() }).collect();
    assert_eq!(got, vec![5, 3, 1]);
}

#[test]
fn heap_iterator_steps_then_stops() {
    let mut heap = Heap::new(8);
    let l = list(&mut heap, vec![Value::Int(1), Value::Int(2)]);
    let it = MontyIter::init(args(vec![l]), &mut heap).unwrap();
    let id = match it {
        Value::Ref(id) => id,
        other => panic!("expected an iterator, got {other:?}"),
    };
    assert!(matches!(advance(id, &mut heap).unwrap(), Some(Value::Int(1))));
    assert!(matches!(iterator_next(&Value::Ref(id), None, &mut heap).unwrap(), Value::Int(2)));
    assert!(advance(id, &mut heap).unwrap().is_none());
    assert!(matches!(iterator_next(&Value::Ref(id), Some(Value::Int(0)), &mut heap).unwrap(), Value::Int(0)));
    let e = iterator_next(&Value::Ref(id), None, &mut heap).unwrap_err();
    assert_eq!(e.exc_type, ExcType::StopIteration);
    let e = iterator_next(&Value::Int(3), None, &mut heap).unwrap_err();
    assert_eq!(e.message, "'int' object is not iterable");
    let l = list(&mut heap, vec![]);
    let e = iterator_next(&l, None, &mut heap).unwrap_err();
    assert_eq!(e.exc_type, ExcType::TypeError);
    assert_eq!(e.message, "'list' object is not an iterator");
}

#[test]
fn print_joins_with_sep_and_end() {
    let mut heap = Heap::new(8);
    let mut out = String::new();
    {
        let mut w: PrintWriter<'_, NoCallback> = PrintWriter::CollectString(&mut out);
        let p = builtin_print(args(vec![Value::Str("Hello".to_owned()), Value::Int(1)]), &mut heap).unwrap();
        let text = p.finish(vec!["Hello".to_owned(), "1".to_owned()], &mut w, &mut heap).unwrap();
        assert!(text.is_empty());
        let p = builtin_print(
            with_kw(vec![Value::Str("a".to_owned()), Value::Str("b".to_owned())], vec![
                ("sep", Value::Str("-".to_owned())),
                ("end", Value::Str("!".to_owned())),
                ("flush", Value::Bool(true)),
            ]),
            &mut heap,
        )
        .unwrap();
        p.finish(vec!["a".to_owned(), "b".to_owned()], &mut w, &mut heap).unwrap();
        let p = builtin_print(with_kw(vec![], vec![("sep", Value::NoneValue)]), &mut heap).unwrap();
        p.finish(vec![], &mut w, &mut heap).unwrap();
    }
    assert_eq!(out, "Hello 1\na-b!\n");

    let mut w: PrintWriter<'_, NoCallback> = PrintWriter::Stdout;
    let p = builtin_print(args(vec![Value::Int(1), Value::Int(2)]), &mut heap).unwrap();
    assert_eq!(p.finish(vec!["1".to_owned(), "2".to_owned()], &mut w, &mut heap).unwrap(), "1 2\n");
}

#[test]
fn print_keyword_errors() {
    let mut heap = Heap::new(8);
    let e = builtin_print(with_kw(vec![], vec![("file", Value::NoneValue)]), &mut heap).unwrap_err();
    assert_eq!(e.exc_type, ExcType::TypeError);
    assert_eq!(e.message, "print() 'file' argument is not supported");
    let e = builtin_print(with_kw(vec![], vec![("sep", Value::Int(3))]), &mut heap).unwrap_err();
    assert_eq!(e.message, "sep must be None or a string, not int");
    let e = builtin_print(with_kw(vec![], vec![("end", Value::Bool(false))]), &mut heap).unwrap_err();
    assert_eq!(e.message, "end must be None or a string, not bool");
    let e = builtin_print(with_kw(vec![], vec![("color", Value::NoneValue)]), &mut heap).unwrap_err();
    assert_eq!(e.message, "print() got an unexpected keyword argument 'color'");
    let e = builtin_print(ArgValues { positional: vec![], kwargs: vec![(Value::Int(1), Value::NoneValue)] }, &mut heap).unwrap_err();
    assert_eq!(e.message, "keywords must be strings");
}

#[test]
fn map_pairs_up_the_iterables() {
    let mut heap = Heap::new(8);
    let a = list(&mut heap, vec![Value::Int(2), Value::Int(3), Value::Int(4)]);
    let b = list(&mut heap, vec![Value::Int(3), Value::Int(2)]);
    let p = builtin_map(args(vec![Value::Builtin(7), a, b]), &mut heap).unwrap();
    assert!(matches!(p.function, Value::Builtin(7)));
    assert_eq!(p.rows.len(), 2);
    assert!(matches!((&p.rows[0][0], &p.rows[0][1]), (Value::Int(2), Value::Int(3))));
    assert!(matches!((&p.rows[1][0], &p.rows[1][1]), (Value::Int(3), Value::Int(2))));
    // pow over the rows.
    let v = map_results(p.function, vec![Value::Int(8), Value::Int(9)], &mut heap).unwrap();
    assert_eq!(ints(&heap, &v), vec![8, 9]);

    let p = builtin_map(args(vec![Value::Builtin(1), Value::Str("ab".to_owned())]), &mut heap).unwrap();
    assert_eq!(p.rows.len(), 2);
    assert!(matches!(&p.rows[1][0], Value::Str(s) if s == "b"));
}

#[test]
fn map_errors() {
    let mut heap = Heap::new(8);
    let e = builtin_map(args(vec![Value::Builtin(0)]), &mut heap).unwrap_err();
    assert_eq!(e.message, "map() must have at least two arguments.");
    let e = builtin_map(args(vec![Value::Builtin(0), Value::Int(5)]), &mut heap).unwrap_err();
    assert_eq!(e.message, "'int' object is not iterable");
    let e = builtin_map(with_kw(vec![Value::Builtin(0), Value::Str("x".to_owned())], vec![("strict", Value::Bool(true))]), &mut heap)
        .unwrap_err();
    assert_eq!(e.message, "map() takes no keyword arguments");
}

#[test]
fn enumerate_counts_from_start() {
    let mut heap = Heap::new(8);
    let l = list(&mut heap, vec![Value::Str("a".to_owned()), Value::Str("b".to_owned())]);
    let v = builtin_enumerate(args(vec![l, Value::Int(5)]), &mut heap).unwrap();
    let pairs = match &v {
        Value::Ref(id) => match heap.get(*id) {
            HeapData::List(items) => items.iter().map(|t| match t {
                Value::Ref(tid) => match heap.get(*tid) {
                    HeapData::Tuple(p) => match (&p[0], &p[1]) {
                        (Value::Int(i), Value::Str(s)) => (*i, s.clone()),
                        other => panic!("unexpected pair {other:?}"),
                    },
                    other => panic!("expected a tuple, got {other:?}"),
                },
                other => panic!("expected a tuple reference, got {other:?}"),
            }).collect::<Vec<_>>(),
            other => panic!("expected a list, got {other:?}"),
        },
        other => panic!("expected a list reference, got {other:?}"),
    };
    assert_eq!(pairs, vec![(5, "a".to_owned()), (6, "b".to_owned())]);

    let e = builtin_enumerate(args(vec![Value::Str("ab".to_owned()), Value::Str("x".to_owned())]), &mut heap).unwrap_err();
    assert_eq!(e.message, "'str' object cannot be interpreted as an integer");
    let e = builtin_enumerate(args(vec![Value::Int(3)]), &mut heap).unwrap_err();
    assert_eq!(e.message, "'int' object is not iterable");
    let v = builtin_enumerate(args(vec![Value::Str("z".to_owned()), Value::Bool(true)]), &mut heap).unwrap();
    assert!(matches!(v, Value::Ref(_)));
}

#[test]
fn sort_indices_keeps_the_input_order_of_equal_values() {
    let heap = Heap::new(1);
    let values = vec![Value::Int(3), Value::Int(1), Value::Int(3), Value::Int(0)];
    let mut indices = vec![2, 3, 0, 1];
    monty::sorting::sort_indices(&mut indices, &values, false, &heap).unwrap();
    assert_eq!(indices, vec![3, 1, 2, 0]);
    let mut indices = vec![2, 3, 0, 1];
    monty::sorting::sort_indices(&mut indices, &values, true, &heap).unwrap();
    assert_eq!(indices, vec![2, 0, 1, 3]);
    let mut indices = vec![0, 1, 2, 3];
    monty::sorting::sort_indices(&mut indices, &values, false, &heap).unwrap();
    assert_eq!(indices, vec![3, 1, 0, 2]);
}

#[test]
fn hash_of_a_timezone_follows_its_offset_only() {
    let mut heap = Heap::new(4);
    let a = heap.allocate(HeapData::TimeZone(monty::timezone::TimeZone { offset_seconds: 3600, name: None })).unwrap();
    let b = heap.allocate(HeapData::TimeZone(monty::timezone::TimeZone { offset_seconds: 3600, name: Some("X".to_string()) })).unwrap();
    let ha = builtin_hash(args(vec![Value::Ref(a)]), &mut heap).unwrap();
    let hb = builtin_hash(args(vec![Value::Ref(b)]), &mut heap).unwrap();
    let mut h = std::collections::hash_map::DefaultHasher::new();
    std::hash::Hash::hash(&3600i32, &mut h);
    let expected = std::hash::Hasher::finish(&h) as i64;
    assert!(matches!(ha, Value::Int(n) if n == expected));
    assert!(matches!(hb, Value::Int(n) if n == expected));
}

#[test]
fn hash_of_a_date_is_the_hash_of_the_calendar_date() {
    let mut heap = Heap::new(4);
    let d = heap.allocate(HeapData::Date(monty::date::Date { year: 2024, month: 2, day: 29 })).unwrap();
    let got = builtin_hash(args(vec![Value::Ref(d)]), &mut heap).unwrap();
    let mut h = std::collections::hash_map::DefaultHasher::new();
    std::hash::Hash::hash(&chrono::NaiveDate::from_ymd_opt(2024, 2, 29).unwrap(), &mut h);
    let expected = std::hash::Hasher::finish(&h) as i64;
    assert!(matches!(got, Value::Int(n) if n == expected));
}

#[test]
fn min_with_key_compares_each_key_as_it_arrives() {
    let mut heap = Heap::new(8);
    let step = builtin_min(
        with_kw(vec![Value::Int(1), Value::Int(2), Value::Int(3)], vec![("key", Value::Builtin(0))]),
        &mut heap,
    )
    .unwrap();
    let pending = match step {
        CallStep::NeedKeys(p) => p,
        CallStep::Done(v) => panic!("expected a key request, got {v:?}"),
    };
    // The second key cannot be ordered against the first: the error comes before
    // the third key is needed.
    let keys = vec![Value::Int(5), Value::Str("x".to_owned())];
    let e = pending.scan_step(&keys, 0, &heap).unwrap_err();
    assert_eq!(e.exc_type, ExcType::TypeError);
    assert_eq!(e.message, "'<' not supported between instances of 'str' and 'int'");
    // With ordered keys the winner moves to the smaller one.
    let keys = vec![Value::Int(5), Value::Int(4)];
    assert_eq!(pending.scan_step(&keys, 0, &heap).unwrap(), 1);
    let keys = vec![Value::Int(5), Value::Int(4), Value::Int(4)];
    assert_eq!(pending.scan_step(&keys, 1, &heap).unwrap(), 1);
}

fn ref_id(v: &Value) -> usize {
    match v {
        Value::Ref(id) => *id,
        other => panic!("expected a heap reference, got {other:?}"),
    }
}

#[test]
fn map_finish_lists_the_results() {
    let mut heap = Heap::new(8);
    let l = list(&mut heap, vec![Value::Int(-1), Value::Int(0), Value::Int(1), Value::Int(2)]);
    let p = builtin_map(args(vec![Value::Builtin(1), l]), &mut heap).unwrap();
    assert_eq!(p.rows.len(), 4);
    assert!(matches!(&p.rows[0][0], Value::Int(-1)));
    // abs over the rows.
    let v = p.finish(vec![Value::Int(1), Value::Int(0), Value::Int(1), Value::Int(2)], &mut heap).unwrap();
    assert_eq!(ints(&heap, &v), vec![1, 0, 1, 2]);
}

#[test]
fn rejected_arguments_are_released() {
    let mut heap = Heap::new(8);
    let a = list(&mut heap, vec![Value::Int(1)]);
    let b = list(&mut heap, vec![Value::Int(2)]);
    let (ia, ib) = (ref_id(&a), ref_id(&b));
    let e = builtin_sorted(args(vec![a, b]), &mut heap).err().unwrap();
    assert_eq!(e.message, "sorted expected 1 argument, got 2");
    assert!(!heap.is_live(ia));
    assert!(!heap.is_live(ib));

    let c = list(&mut heap, vec![]);
    let ic = ref_id(&c);
    let e = builtin_hash(args(vec![c]), &mut heap).unwrap_err();
    assert_eq!(e.exc_type, ExcType::TypeError);
    assert!(!heap.is_live(ic));

    let d = list(&mut heap, vec![]);
    let id = ref_id(&d);
    let e = builtin_print(with_kw(vec![], vec![("sep", d)]), &mut heap).unwrap_err();
    assert_eq!(e.message, "sep must be None or a string, not list");
    assert!(!heap.is_live(id));

    let e = MontyIter::init(args(vec![Value::Builtin(0), Value::Int(0)]), &mut heap).unwrap_err();
    assert_eq!(e.message, "iter(callable, sentinel) is not yet supported");
}

#[test]
fn next_releases_an_unused_default() {
    let mut heap = Heap::new(8);
    let l = list(&mut heap, vec![Value::Int(7)]);
    let it = MontyIter::init(args(vec![l]), &mut heap).unwrap();
    let d = list(&mut heap, vec![]);
    let idd = ref_id(&d);
    assert!(matches!(iterator_next(&it, Some(d), &mut heap).unwrap(), Value::Int(7)));
    assert!(!heap.is_live(idd));
    let d = list(&mut heap, vec![]);
    let idd = ref_id(&d);
    let got = iterator_next(&it, Some(d), &mut heap).unwrap();
    assert_eq!(ref_id(&got), idd);
    assert!(heap.is_live(idd));
}
