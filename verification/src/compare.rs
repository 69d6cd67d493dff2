//! Python rich comparison of values: numbers (ints and bools) compare by value,
//! strings by code points, dates chronologically; other combinations are not
//! ordered.
use vstd::prelude::*;
use core::cmp::Ordering;
use crate::heap::{Heap, HeapData, HeapView};
use crate::value::Value;
use vstd::string::StrSliceExecFns;

verus! {

/// The Unicode code point of a character.
pub open spec fn code_point(c: char) -> int {
    c as int
}

/// The Unicode code point of a character.
pub fn char_code(c: char) -> (r: u32)
    ensures
        r == code_point(c),
{
    c as u32
}

/// Which ordering family a value belongs to: 1 numbers, 2 strings, 3 dates, 0 unordered.
pub open spec fn order_class(v: Value, heap: HeapView) -> int {
    match v {
        Value::Int(_) | Value::Bool(_) => 1,
        Value::Str(_) => 2,
        Value::Ref(id) => if heap.live(id) && heap.data(id) is Date { 3 } else { 0 },
        _ => 0,
    }
}

/// The sequence of integers that values of one ordering family compare by,
/// lexicographically.
pub open spec fn order_key(v: Value, heap: HeapView) -> Seq<int> {
    match v {
        Value::Int(n) => int_key(n),
        Value::Bool(b) => int_key(if b { 1 } else { 0 }),
        Value::Str(s) => chars_key(s@),
        Value::Ref(id) => date_key(heap.data(id)->Date_0),
        _ => Seq::empty(),
    }
}

/// Lexicographic order of integer sequences; a proper prefix comes first.
pub open spec fn lex(a: Seq<int>, b: Seq<int>) -> Ordering
    decreases a.len(),
{
    if a.len() == 0 {
        if b.len() == 0 { Ordering::Equal } else { Ordering::Less }
    } else if b.len() == 0 {
        Ordering::Greater
    } else if a[0] < b[0] {
        Ordering::Less
    } else if a[0] > b[0] {
        Ordering::Greater
    } else {
        lex(a.drop_first(), b.drop_first())
    }
}

/// The result of Python's comparison of `a` with `b`: `None` when the two are not
/// ordered with respect to each other.
pub open spec fn compare_spec(a: Value, b: Value, heap: HeapView) -> Option<Ordering> {
    if order_class(a, heap) != 0 && order_class(a, heap) == order_class(b, heap) {
        Some(lex(order_key(a, heap), order_key(b, heap)))
    } else {
        None
    }
}

/// Whether `a` and `b` can be ordered with respect to each other.
pub open spec fn comparable(a: Value, b: Value, heap: HeapView) -> bool {
    compare_spec(a, b, heap) is Some
}

/// Whether `a` orders strictly before `b`.
pub open spec fn val_lt(a: Value, b: Value, heap: HeapView) -> bool {
    compare_spec(a, b, heap) == Some(Ordering::Less)
}

/// Whether `a` orders strictly after `b`.
pub open spec fn val_gt(a: Value, b: Value, heap: HeapView) -> bool {
    compare_spec(a, b, heap) == Some(Ordering::Greater)
}

/// Whether `a` and `b` compare equal.
pub open spec fn val_eq(a: Value, b: Value, heap: HeapView) -> bool {
    compare_spec(a, b, heap) == Some(Ordering::Equal)
}

/// `lex` is antisymmetric: `a < b` exactly when `b > a`, and equality is equality.
pub proof fn lemma_lex_antisym(a: Seq<int>, b: Seq<int>)
    ensures
        (lex(a, b) == Ordering::Less) == (lex(b, a) == Ordering::Greater),
        (lex(a, b) == Ordering::Equal) == (a == b),
    decreases a.len(),
{
    if a.len() > 0 && b.len() > 0 && a[0] == b[0] {
        lemma_lex_antisym(a.drop_first(), b.drop_first());
        if a.drop_first() == b.drop_first() {
            assert(a == seq![a[0]] + a.drop_first());
            assert(b == seq![b[0]] + b.drop_first());
        }
        if a == b {
            assert(a.drop_first() == b.drop_first());
        }
    }
    if a.len() == 0 && b.len() == 0 {
        assert(a == b);
    }
}

/// `lex` is transitive for "not after".
pub proof fn lemma_lex_le_trans(a: Seq<int>, b: Seq<int>, c: Seq<int>)
    requires
        lex(a, b) != Ordering::Greater,
        lex(b, c) != Ordering::Greater,
    ensures
        lex(a, c) != Ordering::Greater,
    decreases a.len(),
{
    if a.len() > 0 && b.len() > 0 && c.len() > 0 && a[0] == b[0] && b[0] == c[0] {
        lemma_lex_le_trans(a.drop_first(), b.drop_first(), c.drop_first());
    }
}

/// `lex` is transitive for "strictly before".
pub proof fn lemma_lex_lt_trans(a: Seq<int>, b: Seq<int>, c: Seq<int>)
    requires
        lex(a, b) == Ordering::Less,
        lex(b, c) == Ordering::Less,
    ensures
        lex(a, c) == Ordering::Less,
    decreases a.len(),
{
    if a.len() > 0 && b.len() > 0 && c.len() > 0 && a[0] == b[0] && b[0] == c[0] {
        lemma_lex_lt_trans(a.drop_first(), b.drop_first(), c.drop_first());
    }
}

/// Comparison is antisymmetric and reflexive in its result: `a < b` exactly when `b > a`,
/// and `a == b` exactly when `b == a`.
pub proof fn lemma_compare_antisym(a: Value, b: Value, heap: HeapView)
    ensures
        val_lt(a, b, heap) == val_gt(b, a, heap),
        val_eq(a, b, heap) == val_eq(b, a, heap),
        comparable(a, b, heap) == comparable(b, a, heap),
{
    lemma_lex_antisym(order_key(a, heap), order_key(b, heap));
    lemma_lex_antisym(order_key(b, heap), order_key(a, heap));
}

/// "Not after" is transitive among mutually comparable values.
pub proof fn lemma_compare_le_trans(a: Value, b: Value, c: Value, heap: HeapView)
    requires
        comparable(a, b, heap),
        comparable(b, c, heap),
        !val_gt(a, b, heap),
        !val_gt(b, c, heap),
    ensures
        comparable(a, c, heap),
        !val_gt(a, c, heap),
{
    lemma_lex_le_trans(order_key(a, heap), order_key(b, heap), order_key(c, heap));
}

/// "Not before" is transitive among mutually comparable values.
pub proof fn lemma_compare_ge_trans(a: Value, b: Value, c: Value, heap: HeapView)
    requires
        comparable(a, b, heap),
        comparable(b, c, heap),
        !val_lt(a, b, heap),
        !val_lt(b, c, heap),
    ensures
        comparable(a, c, heap),
        !val_lt(a, c, heap),
{
    lemma_compare_antisym(a, b, heap);
    lemma_compare_antisym(b, c, heap);
    lemma_compare_antisym(a, c, heap);
    lemma_lex_le_trans(order_key(c, heap), order_key(b, heap), order_key(a, heap));
}

/// "Not after" then "strictly before" gives "strictly before".
pub proof fn lemma_le_lt_trans(a: Value, b: Value, c: Value, heap: HeapView)
    requires
        comparable(a, b, heap),
        !val_gt(a, b, heap),
        val_lt(b, c, heap),
    ensures
        val_lt(a, c, heap),
{
    lemma_compare_le_trans(a, b, c, heap);
    lemma_compare_antisym(b, c, heap);
    lemma_lex_antisym(order_key(a, heap), order_key(c, heap));
    lemma_lex_antisym(order_key(b, heap), order_key(c, heap));
}

/// "Strictly before" then "not after" gives "strictly before".
pub proof fn lemma_lt_le_trans(a: Value, b: Value, c: Value, heap: HeapView)
    requires
        val_lt(a, b, heap),
        comparable(b, c, heap),
        !val_gt(b, c, heap),
    ensures
        val_lt(a, c, heap),
{
    lemma_compare_le_trans(a, b, c, heap);
    lemma_lex_antisym(order_key(a, heap), order_key(c, heap));
    lemma_lex_antisym(order_key(a, heap), order_key(b, heap));
    lemma_lex_antisym(order_key(b, heap), order_key(c, heap));
}

/// The key an integer compares by.
pub open spec fn int_key(n: i64) -> Seq<int> {
    seq![n as int]
}

/// The key a string compares by: its code points.
pub open spec fn chars_key(s: Seq<char>) -> Seq<int> {
    s.map_values(|c: char| code_point(c))
}

/// The elements of `s` from position `i` on.
pub open spec fn suffix(s: Seq<int>, i: usize) -> Seq<int> {
    s.subrange(i as int, s.len() as int)
}

/// A suffix starts with the element at its position and continues with the next suffix.
proof fn lemma_suffix_step(s: Seq<int>, i: usize)
    requires
        i < s.len(),
        i < usize::MAX,
    ensures
        suffix(s, i).len() > 0,
        suffix(s, i)[0] == s[i as int],
        suffix(s, i).drop_first() == suffix(s, (i + 1) as usize),
{
    assert(suffix(s, i).drop_first() =~= suffix(s, (i + 1) as usize));
}

/// The whole sequence is its suffix from 0, and the suffix at the end is empty.
proof fn lemma_suffix_ends(s: Seq<int>, i: usize)
    ensures
        suffix(s, 0) == s,
        i == s.len() ==> suffix(s, i).len() == 0,
{
    assert(suffix(s, 0) =~= s);
}

/// The key of a string has one code point per character.
proof fn lemma_chars_key(s: Seq<char>, i: usize)
    requires
        i < s.len(),
    ensures
        chars_key(s).len() == s.len(),
        chars_key(s)[i as int] == code_point(s[i as int]),
{
}

/// An integer key has one element, the integer itself.
proof fn lemma_int_key(n: i64)
    ensures
        int_key(n).len() == 1,
        int_key(n)[0] == n as int,
        int_key(n).drop_first() == Seq::<int>::empty(),
{
    assert(int_key(n).drop_first() =~= Seq::<int>::empty());
}

/// A date key holds year, month, day in that order.
proof fn lemma_date_key(d: crate::date::Date)
    ensures
        date_key(d).len() == 3,
        date_key(d)[0] == d.year as int,
        date_key(d).drop_first().len() == 2,
        date_key(d).drop_first()[0] == d.month as int,
        date_key(d).drop_first().drop_first().len() == 1,
        date_key(d).drop_first().drop_first()[0] == d.day as int,
        date_key(d).drop_first().drop_first().drop_first() == Seq::<int>::empty(),
{
    assert(date_key(d).drop_first().drop_first().drop_first() =~= Seq::<int>::empty());
}

/// Compares two strings by code points.
fn compare_str(a: &String, b: &String) -> (r: Ordering)
    ensures
        r == lex(chars_key(a@), chars_key(b@)),
{
    let sa = a.as_str();
    let sb = b.as_str();
    let la = sa.unicode_len();
    let lb = sb.unicode_len();
    let ghost ka = chars_key(a@);
    let ghost kb = chars_key(b@);
    proof {
        lemma_suffix_ends(ka, 0);
        lemma_suffix_ends(kb, 0);
    }
    let mut i: usize = 0;
    while i < la && i < lb
        invariant
            la == a@.len(),
            lb == b@.len(),
            la == ka.len(),
            lb == kb.len(),
            sa@ == a@,
            sb@ == b@,
            ka == chars_key(a@),
            kb == chars_key(b@),
            i <= la,
            i <= lb,
            lex(ka, kb) == lex(suffix(ka, i), suffix(kb, i)),
        decreases la - i,
    {
        let ca = char_code(sa.get_char(i));
        let cb = char_code(sb.get_char(i));
        proof {
            lemma_chars_key(a@, i);
            lemma_chars_key(b@, i);
            lemma_suffix_step(ka, i);
            lemma_suffix_step(kb, i);
        }
        if ca < cb {
            return Ordering::Less;
        }
        if ca > cb {
            return Ordering::Greater;
        }
        i = i + 1;
    }
    proof {
        lemma_suffix_ends(ka, i);
        lemma_suffix_ends(kb, i);
    }
    if i < la {
        Ordering::Greater
    } else if i < lb {
        Ordering::Less
    } else {
        Ordering::Equal
    }
}

/// Orders two integers.
fn compare_int(a: i64, b: i64) -> (r: Ordering)
    ensures
        r == lex(int_key(a), int_key(b)),
{
    proof {
        lemma_int_key(a);
        lemma_int_key(b);
        reveal_with_fuel(lex, 2);
    }
    if a < b {
        Ordering::Less
    } else if a > b {
        Ordering::Greater
    } else {
        Ordering::Equal
    }
}

/// Python's comparison of `a` with `b`; `None` when they are not ordered.
pub fn py_compare(a: &Value, b: &Value, heap: &Heap) -> (r: Option<Ordering>)
    ensures
        r == compare_spec(*a, *b, heap@),
{
    match (number_of(a), number_of(b)) {
        (Some(x), Some(y)) => {
            return Some(compare_int(x, y));
        },
        _ => {},
    }
    match (a, b) {
        (Value::Str(x), Value::Str(y)) => Some(compare_str(x, y)),
        (Value::Ref(i), Value::Ref(j)) => {
            if heap.is_live(*i) && heap.is_live(*j) {
                match (heap.get(*i), heap.get(*j)) {
                    (HeapData::Date(x), HeapData::Date(y)) => Some(compare_dates(x, y)),
                    _ => None,
                }
            } else {
                None
            }
        },
        _ => None,
    }
}

/// The integer value of an int or bool.
fn number_of(v: &Value) -> (r: Option<i64>)
    ensures
        r matches Some(n) ==> (*v matches Value::Int(m) && m == n) || (*v matches Value::Bool(b) && n == if b { 1i64 } else { 0i64 }),
        r is None ==> !(*v is Int || *v is Bool),
{
    match v {
        Value::Int(n) => Some(*n),
        Value::Bool(b) => Some(if *b { 1 } else { 0 }),
        _ => None,
    }
}

/// Orders two dates chronologically.
fn compare_dates(a: &crate::date::Date, b: &crate::date::Date) -> (r: Ordering)
    ensures
        r == lex(date_key(*a), date_key(*b)),
{
    proof {
        lemma_date_key(*a);
        lemma_date_key(*b);
        reveal_with_fuel(lex, 4);
    }
    if a.year != b.year {
        if a.year < b.year { Ordering::Less } else { Ordering::Greater }
    } else if a.month != b.month {
        if a.month < b.month { Ordering::Less } else { Ordering::Greater }
    } else if a.day != b.day {
        if a.day < b.day { Ordering::Less } else { Ordering::Greater }
    } else {
        Ordering::Equal
    }
}

/// Comparing two values gives the same answer in two heaps that agree on both.
pub proof fn lemma_compare_agrees(x: Value, y: Value, a: HeapView, b: HeapView)
    requires
        crate::heap::agrees(x, a, b),
        crate::heap::agrees(y, a, b),
    ensures
        compare_spec(x, y, a) == compare_spec(x, y, b),
        crate::value::py_type_spec(x, a) == crate::value::py_type_spec(x, b),
        crate::value::py_type_spec(y, a) == crate::value::py_type_spec(y, b),
{
}

/// The key a date compares by: year, month, day.
pub open spec fn date_key(d: crate::date::Date) -> Seq<int> {
    seq![d.year as int, d.month as int, d.day as int]
}

} // verus!
