//! The `hash()` builtin.
//!
//! Lists, dicts and sets are unhashable, and so is a tuple holding one of them at
//! any depth; every other value hashes. Hash values come from the standard library's
//! `DefaultHasher` fed with the value's contents, mostly as little-endian 64-bit
//! words.
use vstd::prelude::*;
use std::hash::{DefaultHasher, Hasher};
use crate::exception::{ExcType, RunError, is_error};
use crate::heap::{Heap, HeapData, HeapView};
use crate::text::{push_str, str_to_string};
use crate::value::{ArgValues, Type, Value, data_type_spec, exactly_one_message, no_kwargs_message, type_str, type_str_spec};
use vstd::string::StrSliceExecFns;
use vstd::std_specs::hash::DefaultHasherAdditionalSpecFns;

verus! {

/// The eight little-endian bytes of an integer's two's-complement bits.
pub open spec fn le_bytes(x: i64) -> Seq<u8> {
    Seq::new(8, |i: int| (((x as u64) >> ((8 * i) as u64)) & 0xff) as u8)
}

/// Feeds one integer into the hasher, as its eight little-endian bytes.
fn hasher_write_i64(h: &mut DefaultHasher, x: i64)
    ensures
        final(h)@ == old(h)@.push(le_bytes(x)),
{
    let u: u64 = x as u64;
    let mut bytes: Vec<u8> = Vec::new();
    let mut i: u64 = 0;
    while i < 8
        invariant
            i <= 8,
            u == x as u64,
            bytes@ == le_bytes(x).take(i as int),
        decreases 8 - i,
    {
        let b: u8 = ((u >> (8 * i)) & 0xff) as u8;
        proof {
            assert(b == le_bytes(x)[i as int]);
            assert(le_bytes(x).take(i + 1) == le_bytes(x).take(i as int).push(b));
        }
        bytes.push(b);
        i = i + 1;
    }
    proof {
        assert(le_bytes(x).take(8) == le_bytes(x));
    }
    h.write(bytes.as_slice());
}

/// The four little-endian bytes of a 32-bit integer's two's-complement bits.
pub open spec fn le_bytes32(x: i32) -> Seq<u8> {
    Seq::new(4, |i: int| (((x as u32) >> ((8 * i) as u32)) & 0xff) as u8)
}

/// Feeds one 32-bit integer into the hasher, as its four little-endian bytes.
fn hasher_write_i32(h: &mut DefaultHasher, x: i32)
    ensures
        final(h)@ == old(h)@.push(le_bytes32(x)),
{
    let u: u32 = x as u32;
    let mut bytes: Vec<u8> = Vec::new();
    let mut i: u32 = 0;
    while i < 4
        invariant
            i <= 4,
            u == x as u32,
            bytes@ == le_bytes32(x).take(i as int),
        decreases 4 - i,
    {
        let b: u8 = ((u >> (8 * i)) & 0xff) as u8;
        proof {
            assert(b == le_bytes32(x)[i as int]);
            assert(le_bytes32(x).take(i + 1) == le_bytes32(x).take(i as int).push(b));
        }
        bytes.push(b);
        i = i + 1;
    }
    proof {
        assert(le_bytes32(x).take(4) == le_bytes32(x));
    }
    h.write(bytes.as_slice());
}

/// The hash of everything fed into the hasher.
fn hasher_finish(h: &DefaultHasher) -> (r: u64)
    ensures
        r == DefaultHasher::spec_finish(h@),
{
    h.finish()
}

/// A hasher that has been fed nothing.
fn new_hasher() -> (r: DefaultHasher)
    ensures
        r@ == Seq::<Seq<u8>>::empty(),
{
    DefaultHasher::new()
}

/// The hash of a value: what the hasher gives after being fed the value's words.
pub open spec fn hash_of(v: Value, heap: HeapView, fuel: nat) -> u64
    decreases fuel, 1int, 0int,
{
    DefaultHasher::spec_finish(value_words(v, heap, fuel))
}

/// The words a value feeds into the hasher, each as eight little-endian bytes: the
/// integer for ints and bools (0 for `None`), the code point of each character of a
/// string, the hash of each item of a tuple (at most `fuel` levels deep), the fields
/// of ranges, time deltas and of dates chrono cannot represent, each byte of a bytes
/// object, the id of any other
/// heap object, and the number of a function or future; a time zone feeds its offset
/// as a 32-bit integer (four bytes), so equal offsets hash alike, and a date chrono
/// can represent feeds what hashing it as a `chrono::NaiveDate` does.
pub open spec fn value_words(v: Value, heap: HeapView, fuel: nat) -> Seq<Seq<u8>>
    decreases fuel, 0int, 0int,
{
    match v {
        Value::Undefined | Value::NoneValue | Value::TypeObject(_) => seq![le_bytes(0)],
        Value::Bool(b) => seq![le_bytes(if b { 1 } else { 0 })],
        Value::Int(n) => seq![le_bytes(n)],
        Value::Str(s) => Seq::new(s@.len(), |i: int| le_bytes(crate::compare::code_point(s@[i]) as i64)),
        Value::Ref(id) => if !heap.live(id) {
            seq![le_bytes(0)]
        } else {
            match heap.data(id) {
                HeapData::List(_) | HeapData::Dict(_) | HeapData::PySet(_) => Seq::empty(),
                HeapData::Tuple(items) => if fuel == 0 { Seq::empty() } else { items_words(items@, heap, (fuel - 1) as nat) },
                HeapData::Range(r) => seq![le_bytes(r.start), le_bytes(r.stop), le_bytes(r.step)],
                HeapData::Date(d) => if crate::date::chrono_date(d.year as int, d.month as int, d.day as int) {
                    seq![crate::date::naive_date_hash_bytes(d.year, d.month, d.day)]
                } else {
                    seq![le_bytes(d.year as i64), le_bytes(d.month as i64), le_bytes(d.day as i64)]
                },
                HeapData::TimeZone(tz) => seq![le_bytes32(tz.offset_seconds)],
                HeapData::TimeDelta(t) => seq![le_bytes(t.days as i64), le_bytes(t.seconds as i64), le_bytes(t.microseconds as i64)],
                HeapData::Bytes(b) => Seq::new(b@.len(), |i: int| le_bytes(b@[i] as i64)),
                _ => seq![le_bytes(id as i64)],
            }
        },
        Value::DefFunction(f) | Value::Builtin(f) | Value::ExtFunction(f) | Value::ModuleFunction(f) | Value::ExternalFuture(f) => seq![le_bytes(f as i64)],
    }
}

/// The words of a tuple's items: the hash of each item, in order.
pub open spec fn items_words(items: Seq<Value>, heap: HeapView, fuel: nat) -> Seq<Seq<u8>>
    decreases fuel, 2int, items.len(),
{
    if items.len() == 0 {
        Seq::empty()
    } else {
        items_words(items.drop_last(), heap, fuel).push(le_bytes(hash_of(items.last(), heap, fuel) as i64))
    }
}

/// The type of the first unhashable value found in `v`, searching tuples depth first
/// at most `fuel` levels deep; `None` when `v` hashes.
pub open spec fn unhashable_type(v: Value, heap: HeapView, fuel: nat) -> Option<Type>
    decreases fuel, 0int,
{
    match v {
        Value::Ref(id) => if !heap.live(id) {
            None
        } else {
            match heap.data(id) {
                HeapData::List(_) | HeapData::Dict(_) | HeapData::PySet(_) => Some(data_type_spec(heap.data(id))),
                HeapData::Tuple(items) => if fuel == 0 { None } else { first_unhashable(items@, heap, (fuel - 1) as nat, 0) },
                _ => None,
            }
        },
        _ => None,
    }
}

/// The type of the first unhashable value among `items[i..]`.
pub open spec fn first_unhashable(items: Seq<Value>, heap: HeapView, fuel: nat, i: nat) -> Option<Type>
    decreases fuel, items.len() - i,
{
    if i >= items.len() {
        None
    } else {
        match unhashable_type(items[i as int], heap, fuel) {
            Some(t) => Some(t),
            None => first_unhashable(items, heap, fuel, i + 1),
        }
    }
}

/// `"unhashable type: '{t}'"`.
pub open spec fn unhashable_message(t: Seq<char>) -> Seq<char> {
    "unhashable type: '"@ + t + "'"@
}

/// Hashes a value, or gives the type of the first unhashable value inside it.
fn hash_value(v: &Value, heap: &Heap, fuel: usize) -> (r: Result<u64, Type>)
    ensures
        match unhashable_type(*v, heap@, fuel as nat) {
            Some(t) => r == Err::<u64, Type>(t),
            None => r == Ok::<u64, Type>(hash_of(*v, heap@, fuel as nat)),
        },
    decreases fuel,
{
    let mut h = new_hasher();
    match v {
        Value::Undefined | Value::NoneValue => hasher_write_i64(&mut h, 0),
        Value::Bool(b) => hasher_write_i64(&mut h, if *b { 1 } else { 0 }),
        Value::Int(n) => hasher_write_i64(&mut h, *n),
        Value::Str(s) => {
            let n = s.as_str().unicode_len();
            let ghost words = value_words(*v, heap@, fuel as nat);
            let mut i: usize = 0;
            while i < n
                invariant
                    n == s@.len(),
                    i <= n,
                    *v == Value::Str(*s),
                    words == value_words(*v, heap@, fuel as nat),
                    h@ == words.take(i as int),
                decreases n - i,
            {
                let c = s.as_str().get_char(i);
                hasher_write_i64(&mut h, crate::compare::char_code(c) as i64);
                proof {
                    assert(words.take(i + 1) == words.take(i as int).push(words[i as int]));
                }
                i = i + 1;
            }
            proof {
                assert(words.take(n as int) == words);
            }
        },
        Value::Ref(id) => {
            if !heap.is_live(*id) {
                hasher_write_i64(&mut h, 0);
            } else {
                match heap.get(*id) {
                    HeapData::List(_) => return Err(Type::List),
                    HeapData::Dict(_) => return Err(Type::Dict),
                    HeapData::PySet(_) => return Err(Type::PySet),
                    HeapData::Tuple(items) => {
                        if fuel > 0 {
                            let mut i: usize = 0;
                            while i < items.len()
                                invariant
                                    fuel > 0,
                                    *v == Value::Ref(*id),
                                    i <= items@.len(),
                                    heap@.live(*id),
                                    heap@.data(*id) == HeapData::Tuple(*items),
                                    first_unhashable(items@, heap@, (fuel - 1) as nat, 0) == first_unhashable(items@, heap@, (fuel - 1) as nat, i as nat),
                                    h@ == items_words(items@.take(i as int), heap@, (fuel - 1) as nat),
                                decreases items@.len() - i,
                            {
                                match hash_value(&items[i], heap, fuel - 1) {
                                    Ok(x) => {
                                        hasher_write_i64(&mut h, #[verifier::truncate] (x as i64));
                                        proof {
                                            assert(items@.take(i + 1).drop_last() == items@.take(i as int));
                                            assert(items@.take(i + 1).last() == items@[i as int]);
                                        }
                                    },
                                    Err(t) => {
                                        assert(first_unhashable(items@, heap@, (fuel - 1) as nat, i as nat) == Some(t));
                                        return Err(t);
                                    },
                                }
                                i = i + 1;
                            }
                            proof {
                                assert(items@.take(items@.len() as int) == items@);
                            }
                        }
                    },
                    HeapData::Range(r) => {
                        hasher_write_i64(&mut h, r.start);
                        hasher_write_i64(&mut h, r.stop);
                        hasher_write_i64(&mut h, r.step);
                    },
                    HeapData::Date(d) => {
                        if crate::date::is_chrono_date(d) {
                            crate::date::hasher_write_naive_date(&mut h, d);
                        } else {
                            hasher_write_i64(&mut h, d.year as i64);
                            hasher_write_i64(&mut h, d.month as i64);
                            hasher_write_i64(&mut h, d.day as i64);
                        }
                    },
                    HeapData::TimeZone(tz) => hasher_write_i32(&mut h, tz.offset_seconds),
                    HeapData::TimeDelta(t) => {
                        hasher_write_i64(&mut h, t.days as i64);
                        hasher_write_i64(&mut h, t.seconds as i64);
                        hasher_write_i64(&mut h, t.microseconds as i64);
                    },
                    HeapData::Bytes(b) => {
                        let ghost words = value_words(*v, heap@, fuel as nat);
                        let mut i: usize = 0;
                        while i < b.len()
                            invariant
                                i <= b@.len(),
                                *v == Value::Ref(*id),
                                heap@.live(*id),
                                heap@.data(*id) == HeapData::Bytes(*b),
                                words == value_words(*v, heap@, fuel as nat),
                                h@ == words.take(i as int),
                            decreases b@.len() - i,
                        {
                            hasher_write_i64(&mut h, b[i] as i64);
                            proof {
                                assert(words.take(i + 1) == words.take(i as int).push(words[i as int]));
                            }
                            i = i + 1;
                        }
                        proof {
                            assert(words.take(b@.len() as int) == words);
                        }
                    },
                    _ => hasher_write_i64(&mut h, #[verifier::truncate] (*id as i64)),
                }
            }
        },
        Value::DefFunction(f) | Value::Builtin(f) | Value::ExtFunction(f) | Value::ModuleFunction(f) | Value::ExternalFuture(f) => hasher_write_i64(&mut h, *f as i64),
        Value::TypeObject(_) => hasher_write_i64(&mut h, 0),
    }
    proof {
        assert(h@ == value_words(*v, heap@, fuel as nat));
    }
    Ok(hasher_finish(&h))
}

/// `hash(obj)`: an integer hash of the single argument. TypeError naming the first
/// unhashable type found (lists, dicts, sets, and tuples holding one).
pub fn builtin_hash(args: ArgValues, heap: &mut Heap) -> (r: Result<Value, RunError>)
    requires
        old(heap).wf(),
    ensures
        final(heap).wf(),
        if args.kwargs@.len() > 0 {
            r matches Err(e) && is_error(e, ExcType::TypeError, no_kwargs_message("hash"@))
        } else if args.positional@.len() != 1 {
            r matches Err(e) && is_error(e, ExcType::TypeError, exactly_one_message("hash"@, args.positional@.len() as int))
        } else {
            match unhashable_type(args.positional@[0], old(heap)@, old(heap)@.slots.len()) {
                Some(t) => r matches Err(e) && is_error(e, ExcType::TypeError, unhashable_message(type_str_spec(t))),
                None => r == Ok::<Value, RunError>(Value::Int(hash_of(args.positional@[0], old(heap)@, old(heap)@.slots.len()) as i64)),
            }
        },
        crate::heap::args_released(old(heap)@, final(heap)@, args.positional@, args.kwargs@),
{
    let fuel = heap.slot_count();
    let value = args.get_one_arg("hash", heap)?;
    let res = hash_value(&value, heap, fuel);
    let ghost h0 = heap@;
    let ghost vv = value;
    value.drop_with_heap(heap);
    proof {
        crate::heap::lemma_released_one(h0, heap@, vv);
        assert(args.positional@ =~= seq![vv]);
        crate::heap::lemma_dropped_none(heap@, crate::heap::pair_values(args.kwargs@));
        assert(crate::heap::pair_values(args.kwargs@).len() == 0);
        assert(crate::heap::dropped_from(old(heap)@, heap@, args.positional@, 0) && crate::heap::pairs_dropped_from(heap@, heap@, args.kwargs@, 0));
    }
    match res {
        Ok(x) => Ok(Value::Int(#[verifier::truncate] (x as i64))),
        Err(t) => {
            let mut m = str_to_string("unhashable type: '");
            push_str(&mut m, type_str(t));
            push_str(&mut m, "'");
            Err(RunError { exc_type: ExcType::TypeError, message: m })
        },
    }
}

} // verus!
