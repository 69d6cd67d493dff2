//! Python `datetime.date`.
//!
//! A date is held as its civil components; the calendar computations (checking a
//! date exists, converting to and from day numbers) are chrono's. Constructor
//! validation and error messages follow CPython.
use vstd::prelude::*;
use chrono::{Datelike, NaiveDate};
use std::hash::DefaultHasher;
use vstd::std_specs::hash::DefaultHasherAdditionalSpecFns;
use core::fmt::Write;
use crate::exception::{ExcType, RunError, is_error, unexpected_keyword_message};
use crate::heap::{Heap, HeapData, HeapView};
use crate::text::{digit_value, lemma_zero_padded_four, lemma_zero_padded_two, two_digit_value, int_repr, push_i64, push_str, push_u64, push_zero_padded, str_equals, str_to_string, zero_padded};
use crate::value::{ArgValues, Value, as_int, as_int_spec, drop_pairs, drop_values, exactly_one_message, keywords_must_be_strings, no_kwargs_message, not_integer_message, py_type_spec};

verus! {

/// A calendar date: year, month (1-12) and day of the month.
#[derive(Debug, Clone, Copy, PartialEq, Eq, Structural)]
pub struct Date {
    pub year: i32,
    pub month: u32,
    pub day: u32,
}

/// The smallest year chrono's dates reach.
pub open spec fn chrono_min_year() -> int {
    -262143
}

/// The largest year chrono's dates reach.
pub open spec fn chrono_max_year() -> int {
    262142
}

/// Gregorian leap years: multiples of 4, except multiples of 100 that are not
/// multiples of 400 (proleptically, so year 0 is a leap year).
pub open spec fn is_leap(y: int) -> bool {
    y % 4 == 0 && (y % 100 != 0 || y % 400 == 0)
}

/// The number of days of month `m` (1-12) in year `y`.
pub open spec fn days_in_month(y: int, m: int) -> int {
    if m == 2 {
        if is_leap(y) { 29 } else { 28 }
    } else if m == 4 || m == 6 || m == 9 || m == 11 {
        30
    } else {
        31
    }
}

/// Whether (`y`, `m`, `d`) names an existing day of the proleptic Gregorian calendar.
pub open spec fn valid_ymd(y: int, m: int, d: int) -> bool {
    1 <= m <= 12 && 1 <= d <= days_in_month(y, m)
}

/// Whether (`y`, `m`, `d`) is a date chrono can represent.
pub open spec fn chrono_date(y: int, m: int, d: int) -> bool {
    chrono_min_year() <= y <= chrono_max_year() && valid_ymd(y, m, d)
}

/// Whether a date is one Python's `date` type holds: years 1 to 9999.
pub open spec fn py_date(d: Date) -> bool {
    1 <= d.year <= 9999 && valid_ymd(d.year as int, d.month as int, d.day as int)
}

/// The days of the year before month `m`.
pub open spec fn days_before_month(y: int, m: int) -> int
    decreases m,
{
    if m <= 1 { 0 } else { days_before_month(y, m - 1) + days_in_month(y, m - 1) }
}

/// The days before January 1 of year `y`, counting from January 1 of year 1.
pub open spec fn days_before_year(y: int) -> int {
    365 * (y - 1) + (y - 1) / 4 - (y - 1) / 100 + (y - 1) / 400
}

/// The day number of a date in the proleptic Gregorian calendar, January 1 of year 1
/// being day 1.
pub open spec fn ordinal_spec(y: int, m: int, d: int) -> int {
    days_before_year(y) + days_before_month(y, m) + d
}

/// The day number of 9999-12-31, the last date Python's `date` holds.
pub open spec fn max_ordinal() -> int {
    3652059
}

/// `NaiveDate::from_ymd_opt`: the date when (`year`, `month`, `day`) exists in the
/// proleptic Gregorian calendar within chrono's year range, `None` otherwise.
#[verifier::external_body]
fn chrono_from_ymd(year: i32, month: u32, day: u32) -> (r: Option<Date>)
    ensures
        (r is Some) == chrono_date(year as int, month as int, day as int),
        r matches Some(d) ==> d == (Date { year, month, day }),
{
    match NaiveDate::from_ymd_opt(year, month, day) {
        Some(_) => Some(Date { year, month, day }),
        None => None,
    }
}

/// Whether chrono can represent the date (every date a constructor makes can).
pub fn is_chrono_date(d: &Date) -> (r: bool)
    ensures
        r == chrono_date(d.year as int, d.month as int, d.day as int),
{
    chrono_from_ymd(d.year, d.month, d.day).is_some()
}

/// The bytes that hashing the date as a `chrono::NaiveDate` feeds a hasher.
pub uninterp spec fn naive_date_hash_bytes(year: i32, month: u32, day: u32) -> Seq<u8>;

/// `Hash for chrono::NaiveDate` (derived over its one packed integer field): feeds
/// the date to the hasher in a single write, whose bytes depend on the date alone.
#[verifier::external_body]
pub(crate) fn hasher_write_naive_date(h: &mut DefaultHasher, d: &Date)
    requires
        chrono_date(d.year as int, d.month as int, d.day as int),
    ensures
        final(h)@ == old(h)@.push(naive_date_hash_bytes(d.year, d.month, d.day)),
{
    std::hash::Hash::hash(&NaiveDate::from_ymd_opt(d.year, d.month, d.day).unwrap(), h)
}

/// `Datelike::num_days_from_ce`: the day number of a date, January 1 of year 1 being
/// day 1.
#[verifier::external_body]
fn chrono_num_days_from_ce(d: &Date) -> (r: i32)
    requires
        chrono_date(d.year as int, d.month as int, d.day as int),
    ensures
        r == ordinal_spec(d.year as int, d.month as int, d.day as int),
{
    NaiveDate::from_ymd_opt(d.year, d.month, d.day).unwrap().num_days_from_ce()
}

/// `NaiveDate::from_num_days_from_ce_opt`: the date with day number `days` (January 1
/// of year 1 being day 1), `None` outside chrono's range; every day number from 1 to
/// that of 9999-12-31 is in range.
#[verifier::external_body]
fn chrono_from_num_days_from_ce(days: i32) -> (r: Option<Date>)
    ensures
        r matches Some(d) ==> chrono_date(d.year as int, d.month as int, d.day as int)
            && ordinal_spec(d.year as int, d.month as int, d.day as int) == days,
        1 <= days <= max_ordinal() ==> r is Some,
{
    match NaiveDate::from_num_days_from_ce_opt(days) {
        Some(nd) => Some(Date { year: nd.year(), month: nd.month(), day: nd.day() }),
        None => None,
    }
}

/// `"year must be in 1..9999, not {year}"`.
pub open spec fn year_range_message(year: int) -> Seq<char> {
    "year must be in 1..9999, not "@ + int_repr(year)
}

/// `"month must be in 1..12, not {month}"`.
pub open spec fn month_range_message(month: int) -> Seq<char> {
    "month must be in 1..12, not "@ + int_repr(month)
}

/// `"day {day} must be in range 1..{max} for month {month} in year {year}"`.
pub open spec fn day_range_message(day: int, max: int, month: int, year: int) -> Seq<char> {
    "day "@ + int_repr(day) + " must be in range 1.."@ + int_repr(max) + " for month "@ + int_repr(month)
        + " in year "@ + int_repr(year)
}

/// The largest day of month `month` in year `year`: the last of 31, 30, 29, 28 that
/// exists, or 31 when the month or year is out of range.
pub open spec fn max_day_spec(year: int, month: int) -> int {
    if chrono_min_year() <= year <= chrono_max_year() && 1 <= month <= 12 { days_in_month(year, month) } else { 31 }
}

/// The day of the year of a valid date lies between 1 and 366.
proof fn lemma_day_of_year_bounds(y: int, m: int, d: int)
    requires
        valid_ymd(y, m, d),
    ensures
        1 <= days_before_month(y, m) + d <= 366,
{
    reveal_with_fuel(days_before_month, 13);
}

/// The days before year `y` stay below the start of year 1 for years up to 0, and
/// reach past 9999-12-31 from year 10000 on.
proof fn lemma_days_before_year_bounds(y: int)
    ensures
        y <= 0 ==> days_before_year(y) <= -366,
        y >= 10000 ==> days_before_year(y) >= max_ordinal(),
{
    if y == 0 {
        assert(days_before_year(0) == -366);
    } else if y == 10000 {
        assert(days_before_year(10000) == 3652059);
    }
}

/// A chrono date whose day number lies in Python's range has a year in 1..9999.
proof fn lemma_ordinal_year_bounds(d: Date)
    requires
        chrono_date(d.year as int, d.month as int, d.day as int),
        1 <= ordinal_spec(d.year as int, d.month as int, d.day as int) <= max_ordinal(),
    ensures
        1 <= d.year <= 9999,
{
    lemma_day_of_year_bounds(d.year as int, d.month as int, d.day as int);
    lemma_days_before_year_bounds(d.year as int);
}

/// The largest valid day for a month, trying 31 down to 28.
fn max_day_for_month(year: i32, month: i32) -> (r: u32)
    ensures
        r == max_day_spec(year as int, month as int),
{
    if month < 0 {
        return 31;
    }
    let m: u32 = month as u32;
    let mut d: u32 = 31;
    while d >= 28
        invariant
            27 <= d <= 31,
            m == month,
            forall|k: int| d < k <= 31 ==> !chrono_date(year as int, m as int, k),
        decreases d,
    {
        if chrono_from_ymd(year, m, d).is_some() {
            proof {
                let dim = days_in_month(year as int, m as int);
                if d < dim {
                    assert(chrono_date(year as int, m as int, dim));
                }
            }
            return d;
        }
        d = d - 1;
    }
    proof {
        if chrono_min_year() <= year <= chrono_max_year() && 1 <= month <= 12 {
            assert(chrono_date(year as int, m as int, 28));
        }
    }
    31
}

/// ValueError for a day that does not exist in the given month.
fn day_out_of_range_error(day: i32, month: i32, year: i32) -> (r: RunError)
    ensures
        is_error(r, ExcType::ValueError, day_range_message(day as int, max_day_spec(year as int, month as int), month as int, year as int)),
{
    let max = max_day_for_month(year, month);
    let mut m = str_to_string("day ");
    push_i64(&mut m, day as i64);
    push_str(&mut m, " must be in range 1..");
    push_u64(&mut m, max as u64);
    push_str(&mut m, " for month ");
    push_i64(&mut m, month as i64);
    push_str(&mut m, " in year ");
    push_i64(&mut m, year as i64);
    RunError { exc_type: ExcType::ValueError, message: m }
}

/// What `date(year, month, day)` validation gives: the date, or the ValueError
/// message for the first out-of-range component.
pub open spec fn from_ymd_spec(year: int, month: int, day: int) -> Result<Date, Seq<char>> {
    if !(1 <= year <= 9999) {
        Err(year_range_message(year))
    } else if !(1 <= month <= 12) {
        Err(month_range_message(month))
    } else if !valid_ymd(year, month, day) {
        Err(day_range_message(day, days_in_month(year, month), month, year))
    } else {
        Ok(Date { year: year as i32, month: month as u32, day: day as u32 })
    }
}

/// A date from validated civil components. ValueError, worded as CPython's, for a
/// year outside 1..9999, a month outside 1..12, or a day the month does not have.
pub fn from_ymd(year: i32, month: i32, day: i32) -> (r: Result<Date, RunError>)
    ensures
        match from_ymd_spec(year as int, month as int, day as int) {
            Ok(d) => r == Ok::<Date, RunError>(d),
            Err(m) => r matches Err(e) && is_error(e, ExcType::ValueError, m),
        },
{
    if year < 1 || year > 9999 {
        let mut m = str_to_string("year must be in 1..9999, not ");
        push_i64(&mut m, year as i64);
        return Err(RunError { exc_type: ExcType::ValueError, message: m });
    }
    if month < 1 || month > 12 {
        let mut m = str_to_string("month must be in 1..12, not ");
        push_i64(&mut m, month as i64);
        return Err(RunError { exc_type: ExcType::ValueError, message: m });
    }
    if day < 0 {
        return Err(day_out_of_range_error(day, month, year));
    }
    match chrono_from_ymd(year, month as u32, day as u32) {
        Some(d) => Ok(d),
        None => Err(day_out_of_range_error(day, month, year)),
    }
}

/// OverflowError for a date outside years 1 to 9999.
fn out_of_range_error() -> (r: RunError)
    ensures
        is_error(r, ExcType::OverflowError, "date value out of range"@),
{
    RunError::from_str(ExcType::OverflowError, "date value out of range")
}

/// The date with day number `ordinal` (January 1 of year 1 being day 1). Succeeds for
/// every day number from 1 to that of 9999-12-31; OverflowError otherwise.
pub fn from_ordinal(ordinal: i32) -> (r: Result<Date, RunError>)
    ensures
        r matches Ok(d) ==> py_date(d) && ordinal_spec(d.year as int, d.month as int, d.day as int) == ordinal,
        r matches Err(e) ==> is_error(e, ExcType::OverflowError, "date value out of range"@),
        1 <= ordinal <= max_ordinal() ==> r is Ok,
{
    match chrono_from_num_days_from_ce(ordinal) {
        Some(d) => {
            if d.year < 1 || d.year > 9999 {
                proof {
                    if 1 <= ordinal <= max_ordinal() {
                        lemma_ordinal_year_bounds(d);
                    }
                }
                return Err(out_of_range_error());
            }
            Ok(d)
        },
        None => Err(out_of_range_error()),
    }
}

/// The day number of a date (January 1 of year 1 being day 1).
pub fn to_ordinal(date: Date) -> (r: i32)
    requires
        py_date(date),
    ensures
        r == ordinal_spec(date.year as int, date.month as int, date.day as int),
{
    chrono_num_days_from_ce(&date)
}

/// The civil components of a date.
pub fn to_ymd(date: Date) -> (r: (i32, u32, u32))
    ensures
        r == (date.year, date.month, date.day),
{
    (date.year, date.month, date.day)
}

/// The day of the week, Monday being 0: day 1 (0001-01-01) was a Monday.
pub open spec fn weekday_spec(d: Date) -> int {
    (ordinal_spec(d.year as int, d.month as int, d.day as int) + 6) % 7
}

/// `date.weekday()`: the day of the week, Monday 0 to Sunday 6.
pub fn weekday(date: Date) -> (r: u32)
    requires
        py_date(date),
    ensures
        r == weekday_spec(date),
        r < 7,
{
    let n = to_ordinal(date);
    proof {
        lemma_day_of_year_bounds(date.year as int, date.month as int, date.day as int);
        lemma_days_before_year_bounds(date.year as int);
        lemma_days_before_year_positive(date.year as int);
    }
    ((n as u32 + 6) % 7) as u32
}

/// The days before year `y` are not negative from year 1 on.
proof fn lemma_days_before_year_positive(y: int)
    ensures
        y >= 1 ==> days_before_year(y) >= 0,
{
}

/// `date.isoweekday()`: the day of the week, Monday 1 to Sunday 7.
pub fn isoweekday(date: Date) -> (r: u32)
    requires
        py_date(date),
    ensures
        r == weekday_spec(date) + 1,
{
    weekday(date) + 1
}

/// The date `days` days after `date` (before, for negative `days`), when it lies in
/// years 1 to 9999.
pub open spec fn add_days_spec(date: Date, days: int) -> Option<int> {
    let n = ordinal_spec(date.year as int, date.month as int, date.day as int) + days;
    if 1 <= n <= max_ordinal() { Some(n) } else { None }
}

/// The date `days` days after `date`, or `None` when it falls outside years 1 to
/// 9999.
pub fn add_days(date: Date, days: i64) -> (r: Option<Date>)
    requires
        py_date(date),
    ensures
        match add_days_spec(date, days as int) {
            Some(n) => r matches Some(d) && py_date(d) && ordinal_spec(d.year as int, d.month as int, d.day as int) == n,
            None => r is None,
        },
{
    let base = to_ordinal(date) as i64;
    proof {
        lemma_day_of_year_bounds(date.year as int, date.month as int, date.day as int);
        lemma_days_before_year_positive(date.year as int);
        lemma_ordinal_upper(date);
    }
    let n = match base.checked_add(days) {
        Some(n) => n,
        None => return None,
    };
    if n < 1 || n > 3652059 {
        return None;
    }
    match from_ordinal(n as i32) {
        Ok(d) => Some(d),
        Err(_) => None,
    }
}

/// A Python date's day number is at most that of 9999-12-31.
proof fn lemma_ordinal_upper(d: Date)
    requires
        py_date(d),
    ensures
        ordinal_spec(d.year as int, d.month as int, d.day as int) <= max_ordinal(),
{
    reveal_with_fuel(days_before_month, 13);
    assert(days_before_year(9999) == 3651694);
    lemma_days_before_year_mono(d.year as int, 9999);
}

/// The days before a year grow with the year.
proof fn lemma_days_before_year_mono(a: int, b: int)
    requires
        a <= b,
    ensures
        days_before_year(a) + 365 * (b - a) <= days_before_year(b),
    decreases b - a,
{
    if a < b {
        lemma_days_before_year_mono(a, b - 1);
    }
}

/// `date + timedelta`: the date `days` days later, stored on the heap; `Ok(None)`
/// when it falls outside years 1 to 9999.
pub fn py_add(date: Date, days: i64, heap: &mut Heap) -> (r: Result<Option<Value>, RunError>)
    requires
        old(heap).wf(),
        py_date(date),
    ensures
        final(heap).wf(),
        match add_days_spec(date, days as int) {
            None => r == Ok::<Option<Value>, RunError>(None) && final(heap)@ == old(heap)@,
            Some(n) => {
                ||| (r matches Ok(Some(Value::Ref(id))) && final(heap)@.live(id) && (final(heap)@.data(id) matches HeapData::Date(d)
                    && py_date(d) && ordinal_spec(d.year as int, d.month as int, d.day as int) == n))
                ||| (r matches Err(e) && e.exc_type == ExcType::MemoryError)
            },
        },
{
    match add_days(date, days) {
        None => Ok(None),
        Some(d) => {
            let id = heap.allocate(HeapData::Date(d))?;
            Ok(Some(Value::Ref(id)))
        },
    }
}

/// `date - timedelta`: the date `days` days earlier, stored on the heap; `Ok(None)`
/// when it falls outside years 1 to 9999.
pub fn py_sub_timedelta(date: Date, days: i64, heap: &mut Heap) -> (r: Result<Option<Value>, RunError>)
    requires
        old(heap).wf(),
        py_date(date),
    ensures
        final(heap).wf(),
        match add_days_spec(date, -(days as int)) {
            None => r == Ok::<Option<Value>, RunError>(None) && final(heap)@ == old(heap)@,
            Some(n) => {
                ||| (r matches Ok(Some(Value::Ref(id))) && final(heap)@.live(id) && (final(heap)@.data(id) matches HeapData::Date(d)
                    && py_date(d) && ordinal_spec(d.year as int, d.month as int, d.day as int) == n))
                ||| (r matches Err(e) && e.exc_type == ExcType::MemoryError)
            },
        },
{
    if days == i64::MIN {
        proof {
            lemma_day_of_year_bounds(date.year as int, date.month as int, date.day as int);
            lemma_days_before_year_positive(date.year as int);
        }
        return Ok(None);
    }
    py_add(date, -days, heap)
}

/// `date - date`: the number of days from `b` to `a`.
pub fn py_sub_date(a: Date, b: Date) -> (r: i64)
    requires
        py_date(a),
        py_date(b),
    ensures
        r == ordinal_spec(a.year as int, a.month as int, a.day as int) - ordinal_spec(b.year as int, b.month as int, b.day as int),
{
    proof {
        lemma_day_of_year_bounds(a.year as int, a.month as int, a.day as int);
        lemma_days_before_year_positive(a.year as int);
        lemma_ordinal_upper(a);
        lemma_day_of_year_bounds(b.year as int, b.month as int, b.day as int);
        lemma_days_before_year_positive(b.year as int);
        lemma_ordinal_upper(b);
    }
    to_ordinal(a) as i64 - to_ordinal(b) as i64
}

/// `"{year:04}-{month:02}-{day:02}"`.
pub open spec fn isoformat_spec(d: Date) -> Seq<char> {
    zero_padded(d.year as nat, 4) + "-"@ + zero_padded(d.month as nat, 2) + "-"@ + zero_padded(d.day as nat, 2)
}

/// `date.isoformat()` and `str(date)`: `YYYY-MM-DD`.
pub fn isoformat(date: Date) -> (r: String)
    requires
        py_date(date),
    ensures
        r@ == isoformat_spec(date),
{
    let mut s = String::new();
    push_zero_padded(&mut s, date.year as u64, 4);
    push_str(&mut s, "-");
    push_zero_padded(&mut s, date.month as u64, 2);
    push_str(&mut s, "-");
    push_zero_padded(&mut s, date.day as u64, 2);
    s
}

/// `"datetime.date({year}, {month}, {day})"`.
pub open spec fn date_repr_spec(d: Date) -> Seq<char> {
    "datetime.date("@ + int_repr(d.year as int) + ", "@ + int_repr(d.month as int) + ", "@ + int_repr(d.day as int) + ")"@
}

/// `repr(date)`.
pub fn py_repr(date: Date) -> (r: String)
    ensures
        r@ == date_repr_spec(date),
{
    let mut s = str_to_string("datetime.date(");
    push_i64(&mut s, date.year as i64);
    push_str(&mut s, ", ");
    push_i64(&mut s, date.month as i64);
    push_str(&mut s, ", ");
    push_i64(&mut s, date.day as i64);
    push_str(&mut s, ")");
    s
}

/// `"Python int too large to convert to C int"`.
pub open spec fn c_int_overflow_message() -> Seq<char> {
    "Python int too large to convert to C int"@
}

/// Reading a value as a C `int`: ints and bools within `i32`; OverflowError beyond,
/// TypeError for other types. Errors are (class, message).
pub open spec fn i32_arg_spec(v: Value, heap: HeapView) -> Result<i32, (ExcType, Seq<char>)> {
    match as_int_spec(v) {
        Some(n) => if i32::MIN <= n <= i32::MAX { Ok(n as i32) } else { Err((ExcType::OverflowError, c_int_overflow_message())) },
        None => Err((ExcType::TypeError, not_integer_message(py_type_spec(v, heap)))),
    }
}

/// Whether `e` is the error described by (class, message).
pub open spec fn is_error_pair(e: RunError, p: (ExcType, Seq<char>)) -> bool {
    is_error(e, p.0, p.1)
}

/// Reads a value as a C `int`.
pub fn value_to_i32(v: &Value, heap: &Heap) -> (r: Result<i32, RunError>)
    ensures
        match i32_arg_spec(*v, heap@) {
            Ok(n) => r == Ok::<i32, RunError>(n),
            Err(p) => r matches Err(e) && is_error_pair(e, p),
        },
{
    let n = as_int(v, heap)?;
    if n < i32::MIN as i64 || n > i32::MAX as i64 {
        return Err(RunError::from_str(ExcType::OverflowError, "Python int too large to convert to C int"));
    }
    Ok(n as i32)
}

/// The year, month and day given so far to `date()`.
pub type DateFields = (Option<i32>, Option<i32>, Option<i32>);

/// Sets field `idx` (0 year, 1 month, 2 day).
pub open spec fn set_field(st: DateFields, idx: int, n: i32) -> DateFields {
    if idx == 0 { (Some(n), st.1, st.2) } else if idx == 1 { (st.0, Some(n), st.2) } else { (st.0, st.1, Some(n)) }
}

/// Whether field `idx` is already set.
pub open spec fn field_set(st: DateFields, idx: int) -> bool {
    if idx == 0 { st.0 is Some } else if idx == 1 { st.1 is Some } else { st.2 is Some }
}

/// The name of field `idx`.
pub open spec fn field_name(idx: int) -> Seq<char> {
    if idx == 0 { "year"@ } else if idx == 1 { "month"@ } else { "day"@ }
}

/// The position of a field as a positional argument, counting from 1.
pub open spec fn given_twice_message(idx: int) -> Seq<char> {
    "argument for function given by name ('"@ + field_name(idx) + "') and position ("@ + int_repr(idx + 1) + ")"@
}

/// The fields set by the positional arguments of `date()`, in order.
pub open spec fn date_pos_fields(pos: Seq<Value>, heap: HeapView) -> Result<DateFields, (ExcType, Seq<char>)>
    decreases pos.len(),
{
    if pos.len() == 0 {
        Ok((None, None, None))
    } else {
        match date_pos_fields(pos.drop_last(), heap) {
            Err(p) => Err(p),
            Ok(st) => match i32_arg_spec(pos.last(), heap) {
                Err(p) => Err(p),
                Ok(n) => Ok(set_field(st, pos.len() - 1, n)),
            },
        }
    }
}

/// The field a keyword names: 0 year, 1 month, 2 day, or -1.
pub open spec fn field_index(k: Seq<char>) -> int {
    if k == "year"@ { 0 } else if k == "month"@ { 1 } else if k == "day"@ { 2 } else { -1 }
}

/// The fields after reading the keyword arguments of `date()` in order, starting
/// from `st0`.
pub open spec fn date_kw_fields(kw: Seq<(Value, Value)>, st0: DateFields, heap: HeapView) -> Result<DateFields, (ExcType, Seq<char>)>
    decreases kw.len(),
{
    if kw.len() == 0 {
        Ok(st0)
    } else {
        match date_kw_fields(kw.drop_last(), st0, heap) {
            Err(p) => Err(p),
            Ok(st) => {
                let (k, v) = kw.last();
                match k {
                    Value::Str(s) => {
                        let idx = field_index(s@);
                        if idx < 0 {
                            Err((ExcType::TypeError, unexpected_keyword_message("date"@, s@)))
                        } else if field_set(st, idx) {
                            Err((ExcType::TypeError, given_twice_message(idx)))
                        } else {
                            match i32_arg_spec(v, heap) {
                                Err(p) => Err(p),
                                Ok(n) => Ok(set_field(st, idx, n)),
                            }
                        }
                    },
                    _ => Err((ExcType::TypeError, keywords_must_be_strings())),
                }
            },
        }
    }
}

/// `"function takes at most 3 arguments ({n} given)"`.
pub open spec fn at_most_three_message(n: int) -> Seq<char> {
    "function takes at most 3 arguments ("@ + int_repr(n) + " given)"@
}

/// `"function missing required argument '{name}' (pos {pos})"`.
pub open spec fn missing_field_message(idx: int) -> Seq<char> {
    "function missing required argument '"@ + field_name(idx) + "' (pos "@ + int_repr(idx + 1) + ")"@
}

/// What `date(*pos, **kw)` computes before storing the date: the date, or the error
/// as (class, message).
pub open spec fn date_init_spec(pos: Seq<Value>, kw: Seq<(Value, Value)>, heap: HeapView) -> Result<Date, (ExcType, Seq<char>)> {
    if pos.len() + kw.len() > 3 {
        Err((ExcType::TypeError, at_most_three_message(pos.len() + kw.len() as int)))
    } else {
        match date_pos_fields(pos, heap) {
            Err(p) => Err(p),
            Ok(st0) => match date_kw_fields(kw, st0, heap) {
                Err(p) => Err(p),
                Ok(st) => if st.0 is None {
                    Err((ExcType::TypeError, missing_field_message(0)))
                } else if st.1 is None {
                    Err((ExcType::TypeError, missing_field_message(1)))
                } else if st.2 is None {
                    Err((ExcType::TypeError, missing_field_message(2)))
                } else {
                    match from_ymd_spec(st.0.unwrap() as int, st.1.unwrap() as int, st.2.unwrap() as int) {
                        Ok(d) => Ok(d),
                        Err(m) => Err((ExcType::ValueError, m)),
                    }
                },
            },
        }
    }
}

/// Sets field `idx` of the exec fields.
fn set_field_exec(st: &mut DateFields, idx: usize, n: i32)
    requires
        idx < 3,
    ensures
        *final(st) == set_field(*old(st), idx as int, n),
{
    if idx == 0 {
        st.0 = Some(n);
    } else if idx == 1 {
        st.1 = Some(n);
    } else {
        st.2 = Some(n);
    }
}

/// Whether field `idx` of the exec fields is set.
fn field_set_exec(st: &DateFields, idx: usize) -> (r: bool)
    requires
        idx < 3,
    ensures
        r == field_set(*st, idx as int),
{
    if idx == 0 { st.0.is_some() } else if idx == 1 { st.1.is_some() } else { st.2.is_some() }
}

/// The field a keyword names: 0 year, 1 month, 2 day, or 3 for none.
fn field_index_exec(k: &str) -> (r: usize)
    ensures
        r <= 3,
        r < 3 ==> field_index(k@) == r,
        r == 3 ==> field_index(k@) == -1,
{
    if str_equals(k, "year") {
        0
    } else if str_equals(k, "month") {
        1
    } else if str_equals(k, "day") {
        2
    } else {
        3
    }
}

/// Builds the message for a field given both by position and by name.
fn given_twice_error(idx: usize) -> (r: RunError)
    requires
        idx < 3,
    ensures
        is_error(r, ExcType::TypeError, given_twice_message(idx as int)),
{
    let mut m = str_to_string("argument for function given by name ('");
    push_str(&mut m, if idx == 0 { "year" } else if idx == 1 { "month" } else { "day" });
    push_str(&mut m, "') and position (");
    push_u64(&mut m, (idx + 1) as u64);
    push_str(&mut m, ")");
    RunError { exc_type: ExcType::TypeError, message: m }
}

/// Builds the message for a missing field.
fn missing_field_error(idx: usize) -> (r: RunError)
    requires
        idx < 3,
    ensures
        is_error(r, ExcType::TypeError, missing_field_message(idx as int)),
{
    let mut m = str_to_string("function missing required argument '");
    push_str(&mut m, if idx == 0 { "year" } else if idx == 1 { "month" } else { "day" });
    push_str(&mut m, "' (pos ");
    push_u64(&mut m, (idx + 1) as u64);
    push_str(&mut m, ")");
    RunError { exc_type: ExcType::TypeError, message: m }
}

/// Reads the arguments of `date(year, month, day)` (positional or by name).
fn date_fields_from_args(pos: Vec<Value>, kw: Vec<(Value, Value)>, heap: &mut Heap) -> (r: Result<Date, RunError>)
    requires
        old(heap).wf(),
        pos@.len() + kw@.len() <= usize::MAX,
    ensures
        final(heap).wf(),
        final(heap)@.slots.len() == old(heap)@.slots.len(),
        exists|m: HeapView| #[trigger] crate::heap::dropped_from(old(heap)@, m, pos@, 0)
            && crate::heap::pairs_dropped_from(m, final(heap)@, kw@, 0),
        match date_init_spec(pos@, kw@, old(heap)@) {
            Ok(d) => r == Ok::<Date, RunError>(d),
            Err(p) => r matches Err(e) && is_error_pair(e, p),
        },
{
    let total = pos.len() + kw.len();
    if total > 3 {
        let ghost pv = pos@;
        let ghost kv = kw@;
        drop_values(pos, heap);
        let ghost m = heap@;
        drop_pairs(kw, heap);
        proof {
            assert(crate::heap::dropped_from(old(heap)@, m, pv, 0) && crate::heap::pairs_dropped_from(m, heap@, kv, 0));
        }
        let mut m = str_to_string("function takes at most 3 arguments (");
        push_u64(&mut m, total as u64);
        push_str(&mut m, " given)");
        return Err(RunError { exc_type: ExcType::TypeError, message: m });
    }
    let mut st: DateFields = (None, None, None);
    let mut i: usize = 0;
    while i < pos.len()
        invariant
            i <= pos@.len(),
            pos@.len() + kw@.len() <= 3,
            date_pos_fields(pos@.take(i as int), old(heap)@) == Ok::<DateFields, (ExcType, Seq<char>)>(st),
            heap@ == old(heap)@,
            heap.wf(),
        decreases pos@.len() - i,
    {
        proof {
            assert(pos@.take(i + 1).drop_last() == pos@.take(i as int));
            assert(pos@.take(i + 1).last() == pos@[i as int]);
        }
        match value_to_i32(&pos[i], heap) {
            Ok(n) => set_field_exec(&mut st, i, n),
            Err(e) => {
                proof {
                    lemma_pos_err_sticky(pos@, (i + 1) as nat, old(heap)@);
                }
                let ghost pv = pos@;
                let ghost kv = kw@;
                drop_values(pos, heap);
                let ghost m = heap@;
                drop_pairs(kw, heap);
                proof {
                    assert(crate::heap::dropped_from(old(heap)@, m, pv, 0) && crate::heap::pairs_dropped_from(m, heap@, kv, 0));
                }
                return Err(e);
            },
        }
        i = i + 1;
    }
    proof {
        assert(pos@.take(pos@.len() as int) == pos@);
    }
    let ghost st0 = st;
    let mut j: usize = 0;
    while j < kw.len()
        invariant
            j <= kw@.len(),
            pos@.len() + kw@.len() <= 3,
            date_pos_fields(pos@, old(heap)@) == Ok::<DateFields, (ExcType, Seq<char>)>(st0),
            date_kw_fields(kw@.take(j as int), st0, old(heap)@) == Ok::<DateFields, (ExcType, Seq<char>)>(st),
            heap@ == old(heap)@,
            heap.wf(),
        decreases kw@.len() - j,
    {
        proof {
            assert(kw@.take(j + 1).drop_last() == kw@.take(j as int));
            assert(kw@.take(j + 1).last() == kw@[j as int]);
        }
        let err = match &kw[j].0 {
            Value::Str(s) => {
                let idx = field_index_exec(s.as_str());
                if idx == 3 {
                    Some(crate::exception::type_error_unexpected_keyword("date", s.as_str()))
                } else if field_set_exec(&st, idx) {
                    Some(given_twice_error(idx))
                } else {
                    match value_to_i32(&kw[j].1, heap) {
                        Ok(n) => {
                            set_field_exec(&mut st, idx, n);
                            None
                        },
                        Err(e) => Some(e),
                    }
                }
            },
            _ => Some(RunError::from_str(ExcType::TypeError, "keywords must be strings")),
        };
        if let Some(e) = err {
            proof {
                lemma_kw_err_sticky(kw@, (j + 1) as nat, st0, old(heap)@);
            }
            let ghost pv = pos@;
            let ghost kv = kw@;
            drop_values(pos, heap);
            let ghost m = heap@;
            drop_pairs(kw, heap);
            proof {
                assert(crate::heap::dropped_from(old(heap)@, m, pv, 0) && crate::heap::pairs_dropped_from(m, heap@, kv, 0));
            }
            return Err(e);
        }
        j = j + 1;
    }
    proof {
        assert(kw@.take(kw@.len() as int) == kw@);
    }
    let ghost pv = pos@;
    let ghost kv = kw@;
    drop_values(pos, heap);
    let ghost m = heap@;
    drop_pairs(kw, heap);
    proof {
        assert(crate::heap::dropped_from(old(heap)@, m, pv, 0) && crate::heap::pairs_dropped_from(m, heap@, kv, 0));
    }
    let year = match st.0 {
        Some(y) => y,
        None => return Err(missing_field_error(0)),
    };
    let month = match st.1 {
        Some(m) => m,
        None => return Err(missing_field_error(1)),
    };
    let day = match st.2 {
        Some(d) => d,
        None => return Err(missing_field_error(2)),
    };
    from_ymd(year, month, day)
}

/// Once reading a prefix of the positional arguments fails, reading them all fails
/// the same way.
proof fn lemma_pos_err_sticky(pos: Seq<Value>, i: nat, heap: HeapView)
    requires
        i <= pos.len(),
        date_pos_fields(pos.take(i as int), heap) is Err,
    ensures
        date_pos_fields(pos, heap) == date_pos_fields(pos.take(i as int), heap),
    decreases pos.len() - i,
{
    if i < pos.len() {
        assert(pos.take(i + 1int).drop_last() == pos.take(i as int));
        lemma_pos_err_sticky(pos, i + 1, heap);
    } else {
        assert(pos.take(i as int) == pos);
    }
}

/// Once reading a prefix of the keyword arguments fails, reading them all fails the
/// same way.
proof fn lemma_kw_err_sticky(kw: Seq<(Value, Value)>, i: nat, st0: DateFields, heap: HeapView)
    requires
        i <= kw.len(),
        date_kw_fields(kw.take(i as int), st0, heap) is Err,
    ensures
        date_kw_fields(kw, st0, heap) == date_kw_fields(kw.take(i as int), st0, heap),
    decreases kw.len() - i,
{
    if i < kw.len() {
        assert(kw.take(i + 1int).drop_last() == kw.take(i as int));
        lemma_kw_err_sticky(kw, i + 1, st0, heap);
    } else {
        assert(kw.take(i as int) == kw);
    }
}

/// `date(year, month, day)`: a new date on the heap. TypeError, worded as CPython's,
/// for more than three arguments, a missing or doubly given component, an unknown
/// keyword, or a component that is not an int; OverflowError for a component beyond
/// a C int; ValueError for a date that does not exist in years 1 to 9999.
pub fn init(args: crate::value::ArgValues, heap: &mut Heap) -> (r: Result<Value, RunError>)
    requires
        old(heap).wf(),
        args.positional@.len() + args.kwargs@.len() <= usize::MAX,
    ensures
        final(heap).wf(),
        match date_init_spec(args.positional@, args.kwargs@, old(heap)@) {
            Ok(d) => {
                ||| (r matches Ok(Value::Ref(id)) && final(heap)@.live(id) && final(heap)@.data(id) == HeapData::Date(d))
                ||| (r matches Err(e) && e.exc_type == ExcType::MemoryError && old(heap)@.slots.len() >= usize::MAX)
            },
            Err(p) => r matches Err(e) && is_error_pair(e, p),
        },
        r is Err ==> exists|m: HeapView| #[trigger] crate::heap::dropped_from(old(heap)@, m, args.positional@, 0)
            && crate::heap::pairs_dropped_from(m, final(heap)@, args.kwargs@, 0),
        r is Err && crate::heap::holds_no_refs(args.positional@) && crate::heap::pairs_hold_no_refs(args.kwargs@) ==> final(heap)@ == old(heap)@,
{
    let crate::value::ArgValues { positional, kwargs } = args;
    let r = date_fields_from_args(positional, kwargs, heap);
    proof {
        let m = choose|m: HeapView| #[trigger] crate::heap::dropped_from(old(heap)@, m, args.positional@, 0)
            && crate::heap::pairs_dropped_from(m, heap@, args.kwargs@, 0);
        if crate::heap::holds_no_refs(args.positional@) && crate::heap::pairs_hold_no_refs(args.kwargs@) {
            crate::heap::lemma_dropped_plain(old(heap)@, m, args.positional@, 0);
            crate::heap::lemma_pair_values_plain(args.kwargs@);
            crate::heap::lemma_dropped_plain(m, heap@, crate::heap::pair_values(args.kwargs@), 0);
        }
    }
    let d = r?;
    let id = heap.allocate(HeapData::Date(d))?;
    Ok(Value::Ref(id))
}

/// The new components after reading the keyword arguments of `date.replace()` in
/// order, starting from `st` (a later keyword overrides an earlier one).
pub open spec fn replace_kw_fields(kw: Seq<(Value, Value)>, st: (i32, i32, i32), heap: HeapView) -> Result<(i32, i32, i32), (ExcType, Seq<char>)>
    decreases kw.len(),
{
    if kw.len() == 0 {
        Ok(st)
    } else {
        match replace_kw_fields(kw.drop_last(), st, heap) {
            Err(p) => Err(p),
            Ok(cur) => {
                let (k, v) = kw.last();
                match k {
                    Value::Str(s) => {
                        let idx = field_index(s@);
                        if idx < 0 {
                            Err((ExcType::TypeError, unexpected_keyword_message("replace"@, s@)))
                        } else {
                            match i32_arg_spec(v, heap) {
                                Err(p) => Err(p),
                                Ok(n) => Ok(if idx == 0 { (n, cur.1, cur.2) } else if idx == 1 { (cur.0, n, cur.2) } else { (cur.0, cur.1, n) }),
                            }
                        }
                    },
                    _ => Err((ExcType::TypeError, keywords_must_be_strings())),
                }
            },
        }
    }
}

/// What `date.replace(*pos, **kw)` on `date` computes: the new date, or the error.
pub open spec fn replace_spec(date: Date, pos: Seq<Value>, kw: Seq<(Value, Value)>, heap: HeapView) -> Result<Date, (ExcType, Seq<char>)> {
    if pos.len() > 0 {
        Err((ExcType::TypeError, "replace() takes 0 positional arguments"@))
    } else {
        match replace_kw_fields(kw, (date.year, date.month as i32, date.day as i32), heap) {
            Err(p) => Err(p),
            Ok((y, m, d)) => match from_ymd_spec(y as int, m as int, d as int) {
                Ok(nd) => Ok(nd),
                Err(msg) => Err((ExcType::ValueError, msg)),
            },
        }
    }
}

/// Once reading a prefix of `replace()`'s keywords fails, reading them all fails the
/// same way.
proof fn lemma_replace_err_sticky(kw: Seq<(Value, Value)>, i: nat, st: (i32, i32, i32), heap: HeapView)
    requires
        i <= kw.len(),
        replace_kw_fields(kw.take(i as int), st, heap) is Err,
    ensures
        replace_kw_fields(kw, st, heap) == replace_kw_fields(kw.take(i as int), st, heap),
    decreases kw.len() - i,
{
    if i < kw.len() {
        assert(kw.take(i + 1int).drop_last() == kw.take(i as int));
        lemma_replace_err_sticky(kw, i + 1, st, heap);
    } else {
        assert(kw.take(i as int) == kw);
    }
}

/// Reads the keyword arguments of `date.replace()`: the new (year, month, day), the
/// date's own components where not given.
fn extract_date_replace_kwargs(args: ArgValues, year: i32, month: u32, day: u32, heap: &mut Heap) -> (r: Result<(i32, i32, i32), RunError>)
    requires
        old(heap).wf(),
        1 <= month <= 12,
        1 <= day <= 31,
    ensures
        final(heap).wf(),
        final(heap)@.slots.len() == old(heap)@.slots.len(),
        if args.positional@.len() > 0 {
            r matches Err(e) && is_error(e, ExcType::TypeError, "replace() takes 0 positional arguments"@)
        } else {
            match replace_kw_fields(args.kwargs@, (year, month as i32, day as i32), old(heap)@) {
                Ok(t) => r == Ok::<(i32, i32, i32), RunError>(t),
                Err(p) => r matches Err(e) && is_error_pair(e, p),
            }
        },
{
    let ArgValues { positional, kwargs } = args;
    if positional.len() > 0 {
        drop_values(positional, heap);
        drop_pairs(kwargs, heap);
        return Err(RunError::from_str(ExcType::TypeError, "replace() takes 0 positional arguments"));
    }
    let ghost st0 = (year, month as i32, day as i32);
    let mut cur: (i32, i32, i32) = (year, month as i32, day as i32);
    let mut j: usize = 0;
    while j < kwargs.len()
        invariant
            j <= kwargs@.len(),
            replace_kw_fields(kwargs@.take(j as int), st0, old(heap)@) == Ok::<(i32, i32, i32), (ExcType, Seq<char>)>(cur),
            positional@.len() == 0,
            args.positional@.len() == 0,
            kwargs@ == args.kwargs@,
            st0 == (year, month as i32, day as i32),
            heap@ == old(heap)@,
            heap.wf(),
        decreases kwargs@.len() - j,
    {
        proof {
            assert(kwargs@.take(j + 1).drop_last() == kwargs@.take(j as int));
            assert(kwargs@.take(j + 1).last() == kwargs@[j as int]);
        }
        let err = match &kwargs[j].0 {
            Value::Str(s) => {
                let idx = field_index_exec(s.as_str());
                if idx == 3 {
                    Some(crate::exception::type_error_unexpected_keyword("replace", s.as_str()))
                } else {
                    match value_to_i32(&kwargs[j].1, heap) {
                        Ok(n) => {
                            if idx == 0 {
                                cur.0 = n;
                            } else if idx == 1 {
                                cur.1 = n;
                            } else {
                                cur.2 = n;
                            }
                            None
                        },
                        Err(e) => Some(e),
                    }
                }
            },
            _ => Some(RunError::from_str(ExcType::TypeError, "keywords must be strings")),
        };
        if let Some(e) = err {
            proof {
                lemma_replace_err_sticky(kwargs@, (j + 1) as nat, st0, old(heap)@);
            }
            drop_values(positional, heap);
            drop_pairs(kwargs, heap);
            return Err(e);
        }
        j = j + 1;
    }
    proof {
        assert(kwargs@.take(kwargs@.len() as int) == kwargs@);
    }
    drop_values(positional, heap);
    drop_pairs(kwargs, heap);
    Ok(cur)
}

/// `date.replace(**kw)`: a new date on the heap with the given components replaced.
pub fn replace(date: Date, args: ArgValues, heap: &mut Heap) -> (r: Result<Value, RunError>)
    requires
        old(heap).wf(),
        py_date(date),
    ensures
        final(heap).wf(),
        match replace_spec(date, args.positional@, args.kwargs@, old(heap)@) {
            Ok(d) => {
                ||| (r matches Ok(Value::Ref(id)) && final(heap)@.live(id) && final(heap)@.data(id) == HeapData::Date(d))
                ||| (r matches Err(e) && e.exc_type == ExcType::MemoryError && old(heap)@.slots.len() >= usize::MAX)
            },
            Err(p) => r matches Err(e) && is_error_pair(e, p),
        },
{
    let (y, m, d) = extract_date_replace_kwargs(args, date.year, date.month, date.day, heap)?;
    let nd = from_ymd(y, m, d)?;
    let id = heap.allocate(HeapData::Date(nd))?;
    Ok(Value::Ref(id))
}

/// What speedate's `Date::parse_bytes` gives for a string: (year, month, day), or
/// `None` when the string is not a date it accepts.
pub uninterp spec fn speedate_date_parse(s: Seq<char>) -> Option<(u16, u8, u8)>;

/// `speedate::Date::parse_bytes` on the string's bytes: the parsed components, or
/// `None` on a parse error.
#[verifier::external_body]
fn speedate_parse(s: &str) -> (r: Option<(u16, u8, u8)>)
    ensures
        r == speedate_date_parse(s@),
{
    match speedate::Date::parse_bytes(s.as_bytes()) {
        Ok(d) => Some((d.year, d.month, d.day)),
        Err(_) => None,
    }
}

/// The date for components parsed from an ISO string, when they form a date in
/// years 1 to 9999.
pub fn date_from_parsed(parsed: Option<(u16, u8, u8)>) -> (r: Option<Date>)
    ensures
        r == match parsed {
            Some((y, m, d)) => match from_ymd_spec(y as int, m as int, d as int) {
                Ok(dt) => Some(dt),
                Err(_) => None,
            },
            None => None,
        },
{
    match parsed {
        Some((y, m, d)) => match from_ymd(y as i32, m as i32, d as i32) {
            Ok(dt) => Some(dt),
            Err(_) => None,
        },
        None => None,
    }
}

/// Parses an ISO 8601 date (`YYYY-MM-DD` or `YYYYMMDD`) with speedate.
pub fn parse_iso_date(s: &str) -> (r: Option<Date>)
    ensures
        r == match speedate_date_parse(s@) {
            Some((y, m, d)) => match from_ymd_spec(y as int, m as int, d as int) {
                Ok(dt) => Some(dt),
                Err(_) => None,
            },
            None => None,
        },
{
    date_from_parsed(speedate_parse(s))
}

/// `"{method}: argument must be str"`.
pub open spec fn must_be_str_message(method: Seq<char>) -> Seq<char> {
    method + ": argument must be str"@
}

/// The string a method argument holds; TypeError for other values.
fn extract_str_arg(value: &Value, method_name: &str) -> (r: Result<String, RunError>)
    ensures
        match *value {
            Value::Str(s) => r matches Ok(t) && t@ == s@,
            _ => r matches Err(e) && is_error(e, ExcType::TypeError, must_be_str_message(method_name@)),
        },
{
    match value {
        Value::Str(s) => Ok(s.clone()),
        _ => {
            let mut m = str_to_string(method_name);
            push_str(&mut m, ": argument must be str");
            Err(RunError { exc_type: ExcType::TypeError, message: m })
        },
    }
}

/// `"Invalid isoformat string: '{s}'"`.
pub open spec fn invalid_isoformat_message(s: Seq<char>) -> Seq<char> {
    "Invalid isoformat string: '"@ + s + "'"@
}

/// `date.fromisoformat(s)`: the date an ISO 8601 string names, on the heap. TypeError
/// for a non-string argument, ValueError for a string that is not a valid date.
pub fn class_fromisoformat(args: ArgValues, heap: &mut Heap) -> (r: Result<Value, RunError>)
    requires
        old(heap).wf(),
    ensures
        final(heap).wf(),
        if args.kwargs@.len() > 0 {
            r matches Err(e) && is_error(e, ExcType::TypeError, no_kwargs_message("date.fromisoformat"@))
        } else if args.positional@.len() != 1 {
            r matches Err(e) && is_error(e, ExcType::TypeError, exactly_one_message("date.fromisoformat"@, args.positional@.len() as int))
        } else {
            match args.positional@[0] {
                Value::Str(s) => match speedate_date_parse(s@) {
                    Some((y, m, d)) => match from_ymd_spec(y as int, m as int, d as int) {
                        Ok(dt) => {
                            ||| (r matches Ok(Value::Ref(id)) && final(heap)@.live(id) && final(heap)@.data(id) == HeapData::Date(dt))
                            ||| (r matches Err(e) && e.exc_type == ExcType::MemoryError)
                        },
                        Err(_) => r matches Err(e) && is_error(e, ExcType::ValueError, invalid_isoformat_message(s@)),
                    },
                    None => r matches Err(e) && is_error(e, ExcType::ValueError, invalid_isoformat_message(s@)),
                },
                _ => r matches Err(e) && is_error(e, ExcType::TypeError, must_be_str_message("fromisoformat"@)),
            }
        },
{
    let value = args.get_one_arg("date.fromisoformat", heap)?;
    let s = extract_str_arg(&value, "fromisoformat");
    value.drop_with_heap(heap);
    let s = s?;
    match parse_iso_date(s.as_str()) {
        Some(d) => {
            let id = heap.allocate(HeapData::Date(d))?;
            Ok(Value::Ref(id))
        },
        None => {
            let mut m = str_to_string("Invalid isoformat string: '");
            push_str(&mut m, s.as_str());
            push_str(&mut m, "'");
            Err(RunError { exc_type: ExcType::ValueError, message: m })
        },
    }
}

/// What chrono's `NaiveDate::format(fmt)` writes for a date: the text, or `None`
/// when the format string holds an item chrono cannot render.
pub uninterp spec fn chrono_strftime(year: i32, month: u32, day: u32, fmt: Seq<char>) -> Option<Seq<char>>;

/// `NaiveDate::format(fmt)` written into a string: the text, or `None` when
/// formatting reports an error.
#[verifier::external_body]
fn chrono_format(d: &Date, fmt: &str) -> (r: Option<String>)
    requires
        chrono_date(d.year as int, d.month as int, d.day as int),
    ensures
        match chrono_strftime(d.year, d.month, d.day, fmt@) {
            Some(t) => r matches Some(s) && s@ == t,
            None => r is None,
        },
{
    let nd = NaiveDate::from_ymd_opt(d.year, d.month, d.day).unwrap();
    let mut out = String::new();
    match write!(out, "{}", nd.format(fmt)) {
        Ok(()) => Some(out),
        Err(_) => None,
    }
}

/// `"descriptor 'strftime' requires a 'str' object but received a non-str type"`.
pub open spec fn strftime_arg_message() -> Seq<char> {
    "descriptor 'strftime' requires a 'str' object but received a non-str type"@
}

/// `"Invalid format string"`.
pub open spec fn invalid_format_message() -> Seq<char> {
    "Invalid format string"@
}

/// `date.strftime(fmt)`: the date formatted by chrono's strftime rules. TypeError for a
/// non-string format; ValueError for a format chrono cannot render.
pub fn strftime(date: Date, args: ArgValues, heap: &mut Heap) -> (r: Result<Value, RunError>)
    requires
        old(heap).wf(),
        py_date(date),
    ensures
        final(heap).wf(),
        if args.kwargs@.len() > 0 {
            r matches Err(e) && is_error(e, ExcType::TypeError, no_kwargs_message("date.strftime"@))
        } else if args.positional@.len() != 1 {
            r matches Err(e) && is_error(e, ExcType::TypeError, exactly_one_message("date.strftime"@, args.positional@.len() as int))
        } else {
            match args.positional@[0] {
                Value::Str(f) => match chrono_strftime(date.year, date.month, date.day, f@) {
                    Some(t) => r matches Ok(Value::Str(s)) && s@ == t,
                    None => r matches Err(e) && is_error(e, ExcType::ValueError, invalid_format_message()),
                },
                _ => r matches Err(e) && is_error(e, ExcType::TypeError, strftime_arg_message()),
            }
        },
{
    let value = args.get_one_arg("date.strftime", heap)?;
    let fmt = match &value {
        Value::Str(f) => Ok(f.clone()),
        _ => Err(RunError::from_str(ExcType::TypeError, "descriptor 'strftime' requires a 'str' object but received a non-str type")),
    };
    value.drop_with_heap(heap);
    let fmt = fmt?;
    match chrono_format(&date, fmt.as_str()) {
        Some(s) => Ok(Value::Str(s)),
        None => Err(RunError::from_str(ExcType::ValueError, "Invalid format string")),
    }
}

/// `date.year`, `date.month` and `date.day`; `None` for any other attribute.
pub fn py_getattr(date: Date, attr: &str) -> (r: Option<Value>)
    ensures
        r == if attr@ == "year"@ {
            Some(Value::Int(date.year as i64))
        } else if attr@ == "month"@ {
            Some(Value::Int(date.month as i64))
        } else if attr@ == "day"@ {
            Some(Value::Int(date.day as i64))
        } else {
            None::<Value>
        },
{
    if str_equals(attr, "year") {
        Some(Value::Int(date.year as i64))
    } else if str_equals(attr, "month") {
        Some(Value::Int(date.month as i64))
    } else if str_equals(attr, "day") {
        Some(Value::Int(date.day as i64))
    } else {
        None
    }
}

/// `"{name}() takes no arguments ({n} given)"`.
pub open spec fn no_args_message(name: Seq<char>, n: nat) -> Seq<char> {
    name + "() takes no arguments ("@ + int_repr(n as int) + " given)"@
}

/// Checks that a call passed no arguments; TypeError otherwise (the arguments are
/// dropped).
fn check_zero_args(args: ArgValues, name: &str, heap: &mut Heap) -> (r: Result<(), RunError>)
    requires
        old(heap).wf(),
        args.positional@.len() + args.kwargs@.len() <= usize::MAX,
    ensures
        final(heap).wf(),
        final(heap)@.slots.len() == old(heap)@.slots.len(),
        if args.positional@.len() + args.kwargs@.len() == 0 {
            r is Ok && final(heap)@ == old(heap)@
        } else {
            r matches Err(e) && is_error(e, ExcType::TypeError, no_args_message(name@, args.positional@.len() + args.kwargs@.len()))
        },
{
    let ArgValues { positional, kwargs } = args;
    let n = positional.len() + kwargs.len();
    if n == 0 {
        return Ok(());
    }
    drop_values(positional, heap);
    drop_pairs(kwargs, heap);
    let mut m = str_to_string(name);
    push_str(&mut m, "() takes no arguments (");
    push_u64(&mut m, n as u64);
    push_str(&mut m, " given)");
    Err(RunError { exc_type: ExcType::TypeError, message: m })
}

/// A host operation that running code asks for.
#[derive(Debug, Clone, Copy, PartialEq, Eq, Structural)]
pub enum OsFunction {
    /// The current local date, which the host answers with a date.
    DateToday,
}

/// The Python name of a host operation.
pub open spec fn os_function_name_spec(f: OsFunction) -> Seq<char> {
    match f {
        OsFunction::DateToday => "date.today"@,
    }
}

/// The Python name of a host operation.
pub fn os_function_name(f: OsFunction) -> (r: &'static str)
    ensures
        r@ == os_function_name_spec(f),
{
    match f {
        OsFunction::DateToday => "date.today",
    }
}

/// The class method `date.today()`: takes no arguments and asks the host for the
/// current date (the clock is the host's). TypeError when arguments are given.
pub fn class_today(args: ArgValues, heap: &mut Heap) -> (r: Result<OsFunction, RunError>)
    requires
        old(heap).wf(),
        args.positional@.len() + args.kwargs@.len() <= usize::MAX,
    ensures
        final(heap).wf(),
        if args.positional@.len() + args.kwargs@.len() == 0 {
            r == Ok::<OsFunction, RunError>(OsFunction::DateToday) && final(heap)@ == old(heap)@
        } else {
            r matches Err(e) && is_error(e, ExcType::TypeError, no_args_message("date.today"@, args.positional@.len() + args.kwargs@.len()))
        },
{
    check_zero_args(args, "date.today", heap)?;
    Ok(OsFunction::DateToday)
}

/// `"'date' object has no attribute '{name}'"`.
pub open spec fn date_no_attribute_message(name: Seq<char>) -> Seq<char> {
    "'date' object has no attribute '"@ + name + "'"@
}

/// Calls a method of a date: `isoformat`, `strftime`, `replace`, `weekday` or
/// `isoweekday`; AttributeError for any other name.
pub fn py_call_attr(date: Date, attr: &str, args: ArgValues, heap: &mut Heap) -> (r: Result<Value, RunError>)
    requires
        old(heap).wf(),
        py_date(date),
        args.positional@.len() + args.kwargs@.len() <= usize::MAX,
    ensures
        final(heap).wf(),
        attr@ == "isoformat"@ ==> if args.positional@.len() + args.kwargs@.len() == 0 {
            r matches Ok(Value::Str(s)) && s@ == isoformat_spec(date)
        } else {
            r matches Err(e) && is_error(e, ExcType::TypeError, no_args_message("date.isoformat"@, args.positional@.len() + args.kwargs@.len()))
        },
        attr@ == "weekday"@ ==> if args.positional@.len() + args.kwargs@.len() == 0 {
            r == Ok::<Value, RunError>(Value::Int(weekday_spec(date) as i64))
        } else {
            r matches Err(e) && is_error(e, ExcType::TypeError, no_args_message("date.weekday"@, args.positional@.len() + args.kwargs@.len()))
        },
        attr@ == "isoweekday"@ ==> if args.positional@.len() + args.kwargs@.len() == 0 {
            r == Ok::<Value, RunError>(Value::Int((weekday_spec(date) + 1) as i64))
        } else {
            r matches Err(e) && is_error(e, ExcType::TypeError, no_args_message("date.isoweekday"@, args.positional@.len() + args.kwargs@.len()))
        },
        attr@ == "strftime"@ ==> if args.kwargs@.len() > 0 {
            r matches Err(e) && is_error(e, ExcType::TypeError, no_kwargs_message("date.strftime"@))
        } else if args.positional@.len() != 1 {
            r matches Err(e) && is_error(e, ExcType::TypeError, exactly_one_message("date.strftime"@, args.positional@.len() as int))
        } else {
            match args.positional@[0] {
                Value::Str(f) => match chrono_strftime(date.year, date.month, date.day, f@) {
                    Some(t) => r matches Ok(Value::Str(s)) && s@ == t,
                    None => r matches Err(e) && is_error(e, ExcType::ValueError, invalid_format_message()),
                },
                _ => r matches Err(e) && is_error(e, ExcType::TypeError, strftime_arg_message()),
            }
        },
        attr@ == "replace"@ ==> match replace_spec(date, args.positional@, args.kwargs@, old(heap)@) {
            Ok(d) => {
                ||| (r matches Ok(Value::Ref(id)) && final(heap)@.live(id) && final(heap)@.data(id) == HeapData::Date(d))
                ||| (r matches Err(e) && e.exc_type == ExcType::MemoryError && old(heap)@.slots.len() >= usize::MAX)
            },
            Err(p) => r matches Err(e) && is_error_pair(e, p),
        },
        !(attr@ == "isoformat"@ || attr@ == "weekday"@ || attr@ == "isoweekday"@ || attr@ == "strftime"@ || attr@ == "replace"@)
            ==> (r matches Err(e) && is_error(e, ExcType::AttributeError, date_no_attribute_message(attr@))),
{
    proof {
        reveal_strlit("isoformat");
        reveal_strlit("weekday");
        reveal_strlit("isoweekday");
        reveal_strlit("strftime");
        reveal_strlit("replace");
        assert("isoformat"@.len() == 9);
        assert("weekday"@.len() == 7);
        assert("isoweekday"@.len() == 10);
        assert("strftime"@.len() == 8);
        assert("replace"@.len() == 7);
        assert("weekday"@[0] != "replace"@[0]);
    }
    if str_equals(attr, "isoformat") {
        check_zero_args(args, "date.isoformat", heap)?;
        Ok(Value::Str(isoformat(date)))
    } else if str_equals(attr, "strftime") {
        strftime(date, args, heap)
    } else if str_equals(attr, "replace") {
        replace(date, args, heap)
    } else if str_equals(attr, "weekday") {
        check_zero_args(args, "date.weekday", heap)?;
        Ok(Value::Int(weekday(date) as i64))
    } else if str_equals(attr, "isoweekday") {
        check_zero_args(args, "date.isoweekday", heap)?;
        Ok(Value::Int(isoweekday(date) as i64))
    } else {
        args.drop_with_heap(heap);
        let mut m = str_to_string("'date' object has no attribute '");
        push_str(&mut m, attr);
        push_str(&mut m, "'");
        Err(RunError { exc_type: ExcType::AttributeError, message: m })
    }
}

/// A year has 365 days, 366 in leap years.
#[verifier::spinoff_prover]
proof fn lemma_year_length(y: int)
    ensures
        days_before_year(y + 1) == days_before_year(y) + if is_leap(y) { 366int } else { 365int },
{
    lemma_step_div(y - 1, 4);
    lemma_step_div(y - 1, 100);
    lemma_step_div(y - 1, 400);
}

/// Dividing the next integer by `d` adds one exactly when it is a multiple of `d`.
proof fn lemma_step_div(x: int, d: int)
    requires
        d > 0,
    ensures
        (x + 1) / d == x / d + if (x + 1) % d == 0 { 1int } else { 0int },
{
    vstd::arithmetic::div_mod::lemma_fundamental_div_mod(x, d);
    vstd::arithmetic::div_mod::lemma_fundamental_div_mod(x + 1, d);
    vstd::arithmetic::div_mod::lemma_mod_bound(x, d);
    vstd::arithmetic::div_mod::lemma_mod_bound(x + 1, d);
    if (x + 1) % d == 0 {
        assert(x % d == d - 1) by (nonlinear_arith)
            requires
                x == d * (x / d) + x % d,
                x + 1 == d * ((x + 1) / d) + (x + 1) % d,
                (x + 1) % d == 0,
                0 <= x % d < d,
                d > 0,
        {
            assert(d * ((x + 1) / d) - d * (x / d) == x % d + 1);
            assert(d * ((x + 1) / d - x / d) == x % d + 1);
        }
    }
    assert((x + 1) / d == x / d + if (x + 1) % d == 0 { 1int } else { 0int }) by (nonlinear_arith)
        requires
            x == d * (x / d) + x % d,
            x + 1 == d * ((x + 1) / d) + (x + 1) % d,
            0 <= x % d < d,
            0 <= (x + 1) % d < d,
            (x + 1) % d == 0 ==> x % d == d - 1,
            d > 0,
    {
        let q = x / d;
        let q1 = (x + 1) / d;
        assert(d * (q1 - q) == x % d + 1 - (x + 1) % d);
        if q1 - q >= 2 {
            assert(d * (q1 - q) >= 2 * d);
        }
        if q1 - q <= -1 {
            assert(d * (q1 - q) <= -d);
        }
    }
}

/// The day of the year of a valid date is at most the length of its year, and later
/// months start later.
proof fn lemma_day_of_year_tight(y: int, m1: int, d1: int, m2: int, d2: int)
    requires
        valid_ymd(y, m1, d1),
        valid_ymd(y, m2, d2),
    ensures
        days_before_month(y, m1) + d1 <= if is_leap(y) { 366int } else { 365int },
        m1 < m2 ==> days_before_month(y, m1) + d1 < days_before_month(y, m2) + d2,
{
    reveal_with_fuel(days_before_month, 13);
}

/// A date of years 1 to 9999 is determined by its day number.
pub proof fn law_ordinal_determines_date(a: Date, b: Date)
    requires
        py_date(a),
        py_date(b),
        ordinal_spec(a.year as int, a.month as int, a.day as int) == ordinal_spec(b.year as int, b.month as int, b.day as int),
    ensures
        a == b,
{
    lemma_ordinal_order(a, b);
    lemma_ordinal_order(b, a);
}

/// Dates in a later year, or a later month of the same year, have larger day numbers.
proof fn lemma_ordinal_order(a: Date, b: Date)
    requires
        py_date(a),
        py_date(b),
    ensures
        a.year < b.year ==> ordinal_spec(a.year as int, a.month as int, a.day as int) < ordinal_spec(b.year as int, b.month as int, b.day as int),
        a.year == b.year && a.month < b.month ==> ordinal_spec(a.year as int, a.month as int, a.day as int) < ordinal_spec(b.year as int, b.month as int, b.day as int),
{
    lemma_day_of_year_tight(a.year as int, a.month as int, a.day as int, a.month as int, a.day as int);
    lemma_day_of_year_bounds(b.year as int, b.month as int, b.day as int);
    if a.year < b.year {
        lemma_year_length(a.year as int);
        lemma_days_before_year_mono(a.year + 1, b.year as int);
    }
    if a.year == b.year {
        lemma_day_of_year_tight(a.year as int, a.month as int, a.day as int, b.month as int, b.day as int);
    }
}

/// Adding `n` days to a date and then subtracting `n` days gives the date back.
pub proof fn law_add_then_subtract_days(d: Date, n: int, d1: Date, d2: Date)
    requires
        py_date(d),
        py_date(d1),
        py_date(d2),
        add_days_spec(d, n) == Some(ordinal_spec(d1.year as int, d1.month as int, d1.day as int)),
        add_days_spec(d1, -n) == Some(ordinal_spec(d2.year as int, d2.month as int, d2.day as int)),
    ensures
        d2 == d,
{
    law_ordinal_determines_date(d, d2);
}

/// `date.replace()` with one keyword sets that component and keeps the other two: it
/// gives what `date(...)` gives for the old year, month and day with the named one
/// replaced, so `replace(day=n)`, when it succeeds, has day `n` and the old year and
/// month (likewise `year=` and `month=`).
pub proof fn law_replace_sets_one_component(date: Date, s: String, n: i64, heap: HeapView)
    requires
        py_date(date),
        s@ == "year"@ || s@ == "month"@ || s@ == "day"@,
        i32::MIN <= n <= i32::MAX,
    ensures
        ({
            let r = replace_spec(date, Seq::empty(), seq![(Value::Str(s), Value::Int(n))], heap);
            let y: int = if s@ == "year"@ { n as int } else { date.year as int };
            let m: int = if s@ == "month"@ { n as int } else { date.month as int };
            let d: int = if s@ == "day"@ { n as int } else { date.day as int };
            &&& r == match from_ymd_spec(y, m, d) {
                Ok(nd) => Ok::<Date, (ExcType, Seq<char>)>(nd),
                Err(msg) => Err((ExcType::ValueError, msg)),
            }
            &&& r matches Ok(nd) ==> nd.year == y && nd.month == m && nd.day == d
        }),
{
    reveal_strlit("year");
    reveal_strlit("month");
    reveal_strlit("day");
    assert("year"@.len() == 4 && "month"@.len() == 5 && "day"@.len() == 3);
    let kw = seq![(Value::Str(s), Value::Int(n))];
    assert(kw.drop_last() =~= Seq::<(Value, Value)>::empty());
    assert(kw.last() == (Value::Str(s), Value::Int(n)));
    let st = (date.year, date.month as i32, date.day as i32);
    assert(st.1 as int == date.month as int && st.2 as int == date.day as int);
    assert(replace_kw_fields(kw.drop_last(), st, heap) == Ok::<(i32, i32, i32), (ExcType, Seq<char>)>(st));
    assert(i32_arg_spec(Value::Int(n), heap) == Ok::<i32, (ExcType, Seq<char>)>(n as i32));
    if s@ == "year"@ {
        assert(field_index(s@) == 0);
    } else if s@ == "month"@ {
        assert(field_index(s@) == 1);
    } else {
        assert(field_index(s@) == 2);
    }
}

/// Weekdays run in a cycle of seven from Monday 0001-01-01: the first day is a Monday
/// (0), and the day after any date falls one weekday later, Sunday (6) followed by
/// Monday.
pub proof fn law_weekday_cycle(a: Date, b: Date)
    requires
        ordinal_spec(b.year as int, b.month as int, b.day as int) == ordinal_spec(a.year as int, a.month as int, a.day as int) + 1,
    ensures
        weekday_spec(Date { year: 1, month: 1, day: 1 }) == 0,
        weekday_spec(b) == (weekday_spec(a) + 1) % 7,
{
    assert(ordinal_spec(1, 1, 1) == 1) by {
        reveal_with_fuel(days_before_month, 2);
    }
}

/// `isoformat()` reads back as the date: ten characters `YYYY-MM-DD` whose digit
/// fields are the year, the month and the day.
pub proof fn law_isoformat_reads_back(d: Date)
    requires
        py_date(d),
    ensures
        ({
            let s = isoformat_spec(d);
            &&& s.len() == 10
            &&& s[4] == '-' && s[7] == '-'
            &&& forall|k: int| 0 <= k < 10 && k != 4 && k != 7 ==> 0 <= #[trigger] digit_value(s[k]) <= 9
            &&& 1000 * digit_value(s[0]) + 100 * digit_value(s[1]) + two_digit_value(s, 2) == d.year
            &&& two_digit_value(s, 5) == d.month
            &&& two_digit_value(s, 8) == d.day
        }),
{
    lemma_zero_padded_four(d.year as nat);
    lemma_zero_padded_two(d.month as nat);
    lemma_zero_padded_two(d.day as nat);
    reveal_strlit("-");
    let zy = zero_padded(d.year as nat, 4);
    let zm = zero_padded(d.month as nat, 2);
    let zd = zero_padded(d.day as nat, 2);
    let s = isoformat_spec(d);
    assert(s =~= zy + "-"@ + zm + "-"@ + zd);
    assert(s[0] == zy[0] && s[1] == zy[1] && s[2] == zy[2] && s[3] == zy[3]);
    assert(s[5] == zm[0] && s[6] == zm[1] && s[8] == zd[0] && s[9] == zd[1]);
    assert forall|k: int| 0 <= k < 10 && k != 4 && k != 7 implies 0 <= #[trigger] digit_value(s[k]) <= 9 by {
        if k < 4 {
            assert(0 <= digit_value(zy[k]) <= 9);
        }
    }
}

} // verus!
