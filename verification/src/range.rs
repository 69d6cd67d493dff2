//! Python `range` objects: an immutable arithmetic sequence of integers given by
//! start, stop and step, computed lazily.
use vstd::prelude::*;
use crate::exception::{ExcType, RunError, at_least_message, at_most_message, is_error, type_error_at_least, type_error_at_most};
use crate::heap::{Heap, HeapData, HeapView};
use crate::value::{Value, as_int, as_int_spec, not_integer_message, py_type, py_type_spec, type_str, type_str_spec, HeapId};
use crate::text::{int_repr, push_i64, push_str, str_to_string};

verus! {

/// Ceiling of `a / b` for `b != 0`, rounding toward positive infinity.
pub open spec fn ceil_div(a: int, b: int) -> int {
    if b > 0 {
        -((-a) / b)
    } else {
        -(a / (-b))
    }
}

/// `num_integer::div_ceil` on `i128`: the quotient rounded toward positive infinity.
#[verifier::external_body]
fn div_ceil_i128(x: i128, y: i128) -> (r: i128)
    requires
        y != 0,
        !(x == i128::MIN && y == -1),
    ensures
        r == ceil_div(x as int, y as int),
{
    num_integer::div_ceil(x, y)
}

/// A Python range object. `step` is never zero in ranges built by this module.
#[derive(Debug, Clone, Copy, PartialEq, Eq, Structural)]
pub struct Range {
    /// The first value (inclusive).
    pub start: i64,
    /// The end value (exclusive).
    pub stop: i64,
    /// The difference between consecutive values.
    pub step: i64,
}

/// The number of elements of the range (start, stop, step), as a mathematical integer.
pub open spec fn range_len(start: int, stop: int, step: int) -> int {
    let n = ceil_div(stop - start, step);
    if n < 0 { 0 } else { n }
}

impl Range {
    /// The number of elements, without saturation.
    pub open spec fn len_spec(self) -> int {
        range_len(self.start as int, self.stop as int, self.step as int)
    }

    /// The `i`-th element.
    pub open spec fn element(self, i: int) -> int {
        self.start + i * self.step
    }

    /// The elements of the range, in order.
    pub open spec fn elements(self) -> Seq<int> {
        Seq::new(self.len_spec() as nat, |i: int| self.element(i))
    }

    /// Whether `n` is one of the elements.
    pub open spec fn has(self, n: int) -> bool {
        exists|i: int| 0 <= i < self.len_spec() && n == #[trigger] self.element(i)
    }

    /// A range with the given start, stop and step.
    pub fn new(start: i64, stop: i64, step: i64) -> (r: Range)
        requires
            step != 0,
        ensures
            r == (Range { start, stop, step }),
    {
        Range { start, stop, step }
    }

    /// `range(stop)`: start 0, step 1.
    pub fn from_stop(stop: i64) -> (r: Range)
        ensures
            r == (Range { start: 0, stop, step: 1 }),
    {
        Range { start: 0, stop, step: 1 }
    }

    /// `range(start, stop)`: step 1.
    pub fn from_start_stop(start: i64, stop: i64) -> (r: Range)
        ensures
            r == (Range { start, stop, step: 1 }),
    {
        Range { start, stop, step: 1 }
    }

    /// The number of elements, saturating at `usize::MAX`.
    pub fn len(&self) -> (r: usize)
        requires
            self.step != 0,
        ensures
            r == if self.len_spec() > usize::MAX { usize::MAX as int } else { self.len_spec() },
    {
        let start = self.start as i128;
        let stop = self.stop as i128;
        let step = self.step as i128;
        let n = div_ceil_i128(stop - start, step);
        if n <= 0 {
            0
        } else if n > usize::MAX as i128 {
            usize::MAX
        } else {
            n as usize
        }
    }

    /// Whether the range has no elements.
    pub fn is_empty(&self) -> (r: bool)
        requires
            self.step != 0,
        ensures
            r == (self.len_spec() == 0),
    {
        self.len() == 0
    }

    /// Whether `n` is an element: it lies within the bounds and on the step grid.
    pub fn contains(&self, n: i64) -> (r: bool)
        requires
            self.step != 0,
        ensures
            r == self.has(n as int),
    {
        let start = self.start as i128;
        let x = n as i128;
        if self.step > 0 {
            if n < self.start || n >= self.stop {
                proof {
                    lemma_not_has_outside(*self, n as int);
                }
                return false;
            }
            let d = x - start;
            let s = self.step as i128;
            let r = d % s == 0;
            proof {
                lemma_has_forward(*self, n as int);
            }
            r
        } else {
            if n > self.start || n <= self.stop {
                proof {
                    lemma_not_has_outside(*self, n as int);
                }
                return false;
            }
            let d = start - x;
            let s = -(self.step as i128);
            let r = d % s == 0;
            proof {
                lemma_has_backward(*self, n as int);
            }
            r
        }
    }

    /// Python equality of ranges: equal when they produce the same length and, if
    /// non-empty, the same start and step.
    pub fn py_eq(&self, other: &Range) -> (r: bool)
        requires
            self.step != 0,
            other.step != 0,
        ensures
            r == (sat_len(self.len_spec()) == sat_len(other.len_spec()) && (self.len_spec() == 0
                || (self.start == other.start && self.step == other.step))),
    {
        let a = self.len();
        let b = other.len();
        if a != b {
            return false;
        }
        if a == 0 {
            return true;
        }
        self.start == other.start && self.step == other.step
    }

    /// The element at index `index` (negative indexes count from the end), or
    /// IndexError when out of range. Indexes are checked against the length as
    /// `len` reports it, saturated at `usize::MAX`.
    pub fn getitem(&self, index: i64) -> (r: Result<i64, RunError>)
        requires
            self.step != 0,
            sat_len(self.len_spec()) <= i64::MAX,
        ensures
            match r {
                Ok(v) => {
                    let k = if index < 0 { index + sat_len(self.len_spec()) } else { index as int };
                    &&& 0 <= k < sat_len(self.len_spec())
                    &&& v == self.element(k)
                },
                Err(e) => {
                    let k = if index < 0 { index + sat_len(self.len_spec()) } else { index as int };
                    &&& !(0 <= k < sat_len(self.len_spec()))
                    &&& e.exc_type == ExcType::IndexError
                    &&& e.message@ == "range object index out of range"@
                },
            },
    {
        let len = self.len() as i64;
        let k = if index < 0 { index + len } else { index };
        if k < 0 || k >= len {
            return Err(RunError::from_str(ExcType::IndexError, "range object index out of range"));
        }
        proof {
            lemma_element_in_bounds(*self, k as int);
            assert((k as i128) * (self.step as i128) == k * self.step);
            assert(-0x4000_0000_0000_0000_0000_0000_0000_0000 <= k * self.step <= 0x4000_0000_0000_0000_0000_0000_0000_0000) by (nonlinear_arith)
                requires
                    0 <= k <= i64::MAX,
                    i64::MIN <= self.step <= i64::MAX,
            ;
        }
        let off = (k as i128) * (self.step as i128);
        Ok(((self.start as i128) + off) as i64)
    }

    /// The repr of the range: `range(start, stop)` when the step is 1, otherwise
    /// `range(start, stop, step)`.
    pub fn repr(&self) -> (r: String)
        ensures
            r@ == if self.step == 1 {
                "range("@ + int_repr(self.start as int) + ", "@ + int_repr(self.stop as int) + ")"@
            } else {
                "range("@ + int_repr(self.start as int) + ", "@ + int_repr(self.stop as int) + ", "@
                    + int_repr(self.step as int) + ")"@
            },
    {
        let mut s = str_to_string("range(");
        push_i64(&mut s, self.start);
        push_str(&mut s, ", ");
        push_i64(&mut s, self.stop);
        if self.step != 1 {
            push_str(&mut s, ", ");
            push_i64(&mut s, self.step);
        }
        push_str(&mut s, ")");
        s
    }
}

/// `x` clamped to the `i64` range, as the saturating operations of `i64` produce.
pub open spec fn clamp_i64(x: int) -> int {
    if x < i64::MIN { i64::MIN as int } else if x > i64::MAX { i64::MAX as int } else { x }
}

/// `a.saturating_mul(b)` on `i64`.
pub fn saturating_mul_i64(a: i64, b: i64) -> (r: i64)
    ensures
        r == clamp_i64(a * b),
{
    proof {
        assert(-0x4000_0000_0000_0000_0000_0000_0000_0000 <= a * b <= 0x4000_0000_0000_0000_0000_0000_0000_0000) by (nonlinear_arith)
            requires
                i64::MIN <= a <= i64::MAX,
                i64::MIN <= b <= i64::MAX,
        ;
    }
    let p = (a as i128) * (b as i128);
    if p < i64::MIN as i128 {
        i64::MIN
    } else if p > i64::MAX as i128 {
        i64::MAX
    } else {
        p as i64
    }
}

/// `a.saturating_add(b)` on `i64`.
pub fn saturating_add_i64(a: i64, b: i64) -> (r: i64)
    ensures
        r == clamp_i64(a + b),
{
    let p = (a as i128) + (b as i128);
    if p < i64::MIN as i128 {
        i64::MIN
    } else if p > i64::MAX as i128 {
        i64::MAX
    } else {
        p as i64
    }
}

impl Range {
    /// The range for `self[slice]`, given the slice's indices `(start, stop, step)`
    /// already normalized against this range's length: the new range starts at
    /// element `start`, steps by `self.step * step`, and has as many elements as
    /// `start..stop` by `step` (all arithmetic saturating).
    pub fn getitem_slice(&self, start: i64, stop: i64, step: i64) -> (r: Range)
        requires
            step != 0,
            self.step != 0,
            0 <= start,
            -1 <= stop,
            !(stop - start == i64::MIN && step == -1),
        ensures
            r.step == clamp_i64(self.step * step),
            r.start == clamp_i64(self.start + clamp_i64(start * self.step)),
            r.stop == clamp_i64(r.start + clamp_i64(ceil_div(stop - start, step as int) * r.step)),
    {
        let new_step = saturating_mul_i64(self.step, step);
        let new_start = saturating_add_i64(self.start, saturating_mul_i64(start, self.step));
        let n = div_ceil_i128((stop as i128) - (start as i128), step as i128);
        proof {
            lemma_ceil_div_bounded(stop - start, step as int);
            if stop - start == i64::MIN {
                let m = -(step as int);
                let a = stop - start;
                if step < 0 {
                    vstd::arithmetic::div_mod::lemma_fundamental_div_mod(a, m);
                    assert(a / m >= i64::MIN / 2 - 1) by (nonlinear_arith)
                        requires
                            a == m * (a / m) + a % m,
                            0 <= a % m < m,
                            m >= 2,
                            a == i64::MIN,
                    ;
                } else {
                    vstd::arithmetic::div_mod::lemma_fundamental_div_mod(-a, step as int);
                    assert((-a) / (step as int) >= 0) by (nonlinear_arith)
                        requires
                            -a == (step as int) * ((-a) / (step as int)) + (-a) % (step as int),
                            0 <= (-a) % (step as int) < step,
                            step >= 1,
                            -a > 0,
                    ;
                }
            }
        }
        let num_elements = n as i64;
        let new_stop = saturating_add_i64(new_start, saturating_mul_i64(num_elements, new_step));
        Range { start: new_start, stop: new_stop, step: new_step }
    }
}

/// `ceil(a / b)` lies within `[-|a|, |a|]` for a non-zero `b`.
proof fn lemma_ceil_div_bounded(a: int, b: int)
    requires
        b != 0,
    ensures
        -(if a < 0 { -a } else { a }) <= ceil_div(a, b) <= (if a < 0 { -a } else { a }),
{
    let m = if b > 0 { b } else { -b };
    let x = if b > 0 { -a } else { a };
    vstd::arithmetic::div_mod::lemma_fundamental_div_mod(x, m);
    let q = x / m;
    let r = x % m;
    assert(-(if a < 0 { -a } else { a }) <= q <= (if a < 0 { -a } else { a })) by (nonlinear_arith)
        requires
            x == m * q + r,
            0 <= r < m,
            m >= 1,
            x == a || x == -a,
    ;
}

/// A length saturated to `usize::MAX`, as `Range::len` reports it.
pub open spec fn sat_len(n: int) -> int {
    if n > usize::MAX { usize::MAX as int } else { n }
}

/// For positive `b` and non-negative `i`: `i < ceil(a / b)` exactly when `i * b < a`.
pub proof fn lemma_ceil_div_pos(a: int, b: int, i: int)
    requires
        b > 0,
    ensures
        (i < ceil_div(a, b)) <==> (i * b < a),
{
    let q = (-a) / b;
    let r = (-a) % b;
    assert(-a == q * b + r && 0 <= r < b) by {
        vstd::arithmetic::div_mod::lemma_fundamental_div_mod(-a, b);
    }
    assert(ceil_div(a, b) == -q);
    if i < -q {
        assert(i * b <= (-q - 1) * b) by (nonlinear_arith)
            requires
                i <= -q - 1,
                b > 0,
        ;
        assert((-q - 1) * b == -(q * b) - b) by (nonlinear_arith);
    } else {
        assert(i * b >= (-q) * b) by (nonlinear_arith)
            requires
                i >= -q,
                b > 0,
        ;
        assert((-q) * b == -(q * b)) by (nonlinear_arith);
    }
}

/// Every element index within the length gives a value between start and stop.
pub proof fn lemma_element_in_bounds(r: Range, k: int)
    requires
        r.step != 0,
        0 <= k < r.len_spec(),
    ensures
        r.step > 0 ==> r.start <= r.element(k) < r.stop,
        r.step < 0 ==> r.stop < r.element(k) <= r.start,
{
    if r.step > 0 {
        lemma_ceil_div_pos(r.stop - r.start, r.step as int, k);
        assert(k * r.step >= 0) by (nonlinear_arith)
            requires
                k >= 0,
                r.step > 0,
        ;
    } else {
        let s = -(r.step as int);
        assert(ceil_div(r.stop - r.start, r.step as int) == ceil_div(r.start - r.stop, s));
        lemma_ceil_div_pos(r.start - r.stop, s, k);
        assert(k * r.step == -(k * s)) by (nonlinear_arith)
            requires
                s == -r.step,
        ;
        assert(k * s >= 0) by (nonlinear_arith)
            requires
                k >= 0,
                s > 0,
        ;
    }
}

/// A value outside the range's bounds is not an element.
proof fn lemma_not_has_outside(r: Range, n: int)
    requires
        r.step != 0,
        r.step > 0 ==> (n < r.start || n >= r.stop),
        r.step < 0 ==> (n > r.start || n <= r.stop),
    ensures
        !r.has(n),
{
    if r.has(n) {
        let i = choose|i: int| 0 <= i < r.len_spec() && n == #[trigger] r.element(i);
        lemma_element_in_bounds(r, i);
    }
}

/// For an increasing range and `start <= n < stop`: `n` is an element exactly when
/// `n - start` is a multiple of the step.
proof fn lemma_has_forward(r: Range, n: int)
    requires
        r.step > 0,
        r.start <= n < r.stop,
    ensures
        r.has(n) == ((n - r.start) % (r.step as int) == 0),
{
    let d = n - r.start;
    let s = r.step as int;
    if d % s == 0 {
        let i = d / s;
        vstd::arithmetic::div_mod::lemma_fundamental_div_mod(d, s);
        assert(i * s == d) by (nonlinear_arith)
            requires
                d == s * i + d % s,
                d % s == 0,
        ;
        assert(i >= 0) by (nonlinear_arith)
            requires
                d >= 0,
                s > 0,
                i == d / s,
        ;
        lemma_ceil_div_pos(r.stop - r.start, s, i);
        assert(n == r.element(i));
    }
    if r.has(n) {
        let i = choose|i: int| 0 <= i < r.len_spec() && n == #[trigger] r.element(i);
        assert(d == i * s);
        vstd::arithmetic::div_mod::lemma_mod_multiples_basic(i, s);
        assert((i * s) % s == 0);
    }
}

/// For a decreasing range and `stop < n <= start`: `n` is an element exactly when
/// `start - n` is a multiple of the step's magnitude.
proof fn lemma_has_backward(r: Range, n: int)
    requires
        r.step < 0,
        r.stop < n <= r.start,
    ensures
        r.has(n) == ((r.start - n) % (-(r.step as int)) == 0),
{
    let d = r.start - n;
    let s = -(r.step as int);
    assert(ceil_div(r.stop - r.start, r.step as int) == ceil_div(r.start - r.stop, s));
    if d % s == 0 {
        let i = d / s;
        vstd::arithmetic::div_mod::lemma_fundamental_div_mod(d, s);
        assert(i * s == d) by (nonlinear_arith)
            requires
                d == s * i + d % s,
                d % s == 0,
        ;
        assert(i >= 0) by (nonlinear_arith)
            requires
                d >= 0,
                s > 0,
                i == d / s,
        ;
        lemma_ceil_div_pos(r.start - r.stop, s, i);
        assert(i * r.step == -(i * s)) by (nonlinear_arith)
            requires
                s == -r.step,
        ;
        assert(n == r.element(i));
    }
    if r.has(n) {
        let i = choose|i: int| 0 <= i < r.len_spec() && n == #[trigger] r.element(i);
        assert(i * r.step == -(i * s)) by (nonlinear_arith)
            requires
                s == -r.step,
        ;
        assert(d == i * s);
        vstd::arithmetic::div_mod::lemma_mod_multiples_basic(i, s);
    }
}

/// The range that `range(...)` builds from the given positional arguments, if any:
/// one argument is the stop, two are start and stop, three are start, stop and a
/// non-zero step; every argument must be an integer (or bool).
pub open spec fn range_of_args(args: Seq<Value>) -> Option<Range> {
    if 1 <= args.len() <= 3 && forall|i: int| 0 <= i < args.len() ==> #[trigger] as_int_spec(args[i]) is Some {
        let a = as_int_spec(args[0])->0;
        if args.len() == 1 {
            Some(Range { start: 0, stop: a as i64, step: 1 })
        } else {
            let b = as_int_spec(args[1])->0;
            if args.len() == 2 {
                Some(Range { start: a as i64, stop: b as i64, step: 1 })
            } else {
                let c = as_int_spec(args[2])->0;
                if c == 0 { None } else { Some(Range { start: a as i64, stop: b as i64, step: c as i64 }) }
            }
        }
    } else {
        None
    }
}

/// The error `range(...)` raises for arguments that make no range: TypeError for no
/// argument or more than three, TypeError for the first argument that is not an
/// integer, ValueError for a zero step.
pub open spec fn range_args_error(args: Seq<Value>, heap: HeapView, e: RunError) -> bool {
    if args.len() == 0 {
        e.exc_type == ExcType::TypeError && e.message@ == at_least_message("range"@, 1, 0)
    } else if args.len() > 3 {
        e.exc_type == ExcType::TypeError && e.message@ == at_most_message("range"@, 3, args.len() as int)
    } else {
        ||| exists|i: int| 0 <= i < args.len() && #[trigger] as_int_spec(args[i]) is None
            && (forall|j: int| 0 <= j < i ==> #[trigger] as_int_spec(args[j]) is Some)
            && e.exc_type == ExcType::TypeError && e.message@ == not_integer_message(py_type_spec(args[i], heap))
        ||| args.len() == 3 && (forall|j: int| 0 <= j < 3 ==> #[trigger] as_int_spec(args[j]) is Some)
            && as_int_spec(args[2]) == Some(0int) && e.exc_type == ExcType::ValueError
            && e.message@ == "range() arg 3 must not be zero"@
    }
}

impl Range {
    /// The range built by the `range()` constructor from positional arguments, which
    /// must be integers (or bools).
    ///
    /// Errors: TypeError for no arguments or more than three, TypeError for a
    /// non-integer argument (the first one found), ValueError for a zero step.
    pub fn from_args(args: &Vec<Value>, heap: &Heap) -> (r: Result<Range, RunError>)
        ensures
            args@.len() == 0 ==> (r matches Err(e) && e.exc_type == ExcType::TypeError
                && e.message@ == at_least_message("range"@, 1, 0)),
            args@.len() > 3 ==> (r matches Err(e) && e.exc_type == ExcType::TypeError
                && e.message@ == at_most_message("range"@, 3, args@.len() as int)),
            match r {
                Ok(rg) => range_of_args(args@) == Some(rg) && rg.step != 0,
                Err(_) => range_of_args(args@) is None,
            },
            r matches Err(e) ==> range_args_error(args@, heap@, e),
    {
        let n = args.len();
        if n == 0 {
            return Err(type_error_at_least("range", 1, 0));
        }
        if n > 3 {
            return Err(type_error_at_most("range", 3, n));
        }
        if n == 1 {
            let stop = as_int(&args[0], heap)?;
            return Ok(Range::from_stop(stop));
        }
        let a = as_int(&args[0], heap)?;
        let b = as_int(&args[1], heap)?;
        if n == 2 {
            return Ok(Range::from_start_stop(a, b));
        }
        let c = as_int(&args[2], heap)?;
        if c == 0 {
            return Err(RunError::from_str(ExcType::ValueError, "range() arg 3 must not be zero"));
        }
        Ok(Range::new(a, b, c))
    }

    /// The `range()` constructor: builds the range from the positional arguments and
    /// stores it on the heap.
    pub fn init(args: &Vec<Value>, heap: &mut Heap) -> (r: Result<Value, RunError>)
        requires
            old(heap).wf(),
        ensures
            final(heap).wf(),
            match r {
                Ok(v) => (v matches Value::Ref(id) && final(heap)@.live(id)
                    && final(heap)@.data(id) == HeapData::Range(range_of_args(args@)->0)),
                Err(e) => if range_of_args(args@) is Some {
                    e.exc_type == ExcType::MemoryError && final(heap)@ == old(heap)@
                } else {
                    range_args_error(args@, old(heap)@, e)
                },
            },
            (r is Ok) <==> (range_of_args(args@) is Some && crate::heap::has_room(old(heap)@)),
    {
        let rg = Range::from_args(args, heap)?;
        let id = heap.allocate(HeapData::Range(rg))?;
        Ok(Value::Ref(id))
    }
}

/// `"range indices must be integers or slices, not {type}"`.
pub open spec fn range_index_type_message(t: Seq<char>) -> Seq<char> {
    "range indices must be integers or slices, not "@ + t
}

impl Range {
    /// `r[key]` for an integer key (a bool counts as 0 or 1): the element, a negative
    /// index counting from the end; IndexError when out of range, TypeError for any
    /// other key. Slices go through [`Range::getitem_slice`].
    pub fn py_getitem(&self, key: &Value, heap: &Heap) -> (r: Result<Value, RunError>)
        requires
            self.step != 0,
            sat_len(self.len_spec()) <= i64::MAX,
        ensures
            match as_int_spec(*key) {
                Some(i) => {
                    let k = if i < 0 { i + sat_len(self.len_spec()) } else { i };
                    if 0 <= k < sat_len(self.len_spec()) {
                        r == Ok::<Value, RunError>(Value::Int(self.element(k) as i64))
                    } else {
                        r matches Err(e) && is_error(e, ExcType::IndexError, "range object index out of range"@)
                    }
                },
                None => r matches Err(e) && is_error(e, ExcType::TypeError,
                    range_index_type_message(type_str_spec(py_type_spec(*key, heap@)))),
            },
    {
        let index: i64 = match key {
            Value::Int(i) => *i,
            Value::Bool(b) => if *b { 1 } else { 0 },
            _ => {
                let mut m = str_to_string("range indices must be integers or slices, not ");
                push_str(&mut m, type_str(py_type(key, heap)));
                return Err(RunError { exc_type: ExcType::TypeError, message: m });
            },
        };
        let v = self.getitem(index)?;
        Ok(Value::Int(v))
    }
}

/// Two ranges compare equal exactly when they produce the same elements, for ranges
/// of any length but one (a single-element range also compares its step).
pub proof fn law_range_eq_same_elements(a: Range, b: Range)
    requires
        a.step != 0,
        b.step != 0,
        a.len_spec() != 1,
        a.len_spec() <= usize::MAX,
        b.len_spec() <= usize::MAX,
    ensures
        (sat_len(a.len_spec()) == sat_len(b.len_spec()) && (a.len_spec() == 0 || (a.start == b.start && a.step == b.step)))
            == (a.elements() == b.elements()),
{
    if a.elements() == b.elements() {
        assert(a.elements().len() == b.elements().len());
        if a.len_spec() > 0 {
            assert(a.elements()[0] == b.elements()[0]);
            assert(a.elements()[1] == b.elements()[1]);
            assert(a.element(1) == a.start + a.step);
            assert(b.element(1) == b.start + b.step);
        }
    }
    if sat_len(a.len_spec()) == sat_len(b.len_spec()) && (a.len_spec() == 0 || (a.start == b.start && a.step == b.step)) {
        assert(a.elements() =~= b.elements());
    }
}

} // verus!
