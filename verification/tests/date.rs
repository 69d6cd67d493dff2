//! `datetime.date`: construction, calendar arithmetic, formatting and parsing.

use monty::date::{
    add_days, class_fromisoformat, from_ordinal, from_ymd, init, isoformat, isoweekday, parse_iso_date, py_add,
    py_call_attr, py_getattr, py_repr, py_sub_date, py_sub_timedelta, replace, strftime, to_ordinal, to_ymd,
    value_to_i32, weekday, Date,
};
use monty::exception::ExcType;
use monty::heap::{Heap, HeapData};
use monty::value::{ArgValues, Value};

fn d(year: i32, month: u32, day: u32) -> Date {
    Date { year, month, day }
}

fn args(positional: Vec<Value>) -> ArgValues {
    ArgValues::positional_only(positional)
}

fn kwargs(pairs: Vec<(&str, Value)>) -> ArgValues {
    ArgValues { positional: vec![], kwargs: pairs.into_iter().map(|(k, v)| (Value::Str(k.to_owned()), v)).collect() }
}

fn heap_date(heap: &Heap, v: &Value) -> Date {
    match v {
        Value::Ref(id) => match heap.get(*id) {
            HeapData::Date(d) => *d,
            other => panic!("expected a date, got {other:?}"),
        },
        other => panic!("expected a heap reference, got {other:?}"),
    }
}

#[test]
fn from_ymd_accepts_real_dates() {
    assert_eq!(from_ymd(2024, 2, 29).unwrap(), d(2024, 2, 29));
    assert_eq!(from_ymd(1, 1, 1).unwrap(), d(1, 1, 1));
    assert_eq!(from_ymd(9999, 12, 31).unwrap(), d(9999, 12, 31));
}

#[test]
fn from_ymd_rejects_each_component_as_cpython_does() {
    let e = from_ymd(0, 1, 1).unwrap_err();
    assert_eq!(e.exc_type, ExcType::ValueError);
    assert_eq!(e.message, "year must be in 1..9999, not 0");
    let e = from_ymd(2024, 13, 1).unwrap_err();
    assert_eq!(e.message, "month must be in 1..12, not 13");
    let e = from_ymd(2023, 2, 29).unwrap_err();
    assert_eq!(e.message, "day 29 must be in range 1..28 for month 2 in year 2023");
    let e = from_ymd(2024, 4, 31).unwrap_err();
    assert_eq!(e.message, "day 31 must be in range 1..30 for month 4 in year 2024");
}

#[test]
fn ordinals_count_days_from_year_one() {
    assert_eq!(to_ordinal(d(1, 1, 1)), 1);
    assert_eq!(to_ordinal(d(1, 12, 31)), 365);
    assert_eq!(to_ordinal(d(2000, 1, 1)), 730120);
    assert_eq!(from_ordinal(730120).unwrap(), d(2000, 1, 1));
    assert_eq!(from_ordinal(1).unwrap(), d(1, 1, 1));
    let e = from_ordinal(0).unwrap_err();
    assert_eq!(e.exc_type, ExcType::OverflowError);
    assert_eq!(e.message, "date value out of range");
}

#[test]
fn ordinal_round_trip() {
    for date in [d(1, 1, 1), d(1600, 2, 29), d(1970, 1, 1), d(2024, 12, 31), d(9999, 12, 31)] {
        assert_eq!(from_ordinal(to_ordinal(date)).unwrap(), date);
    }
    assert_eq!(to_ymd(d(2024, 3, 5)), (2024, 3, 5));
}

#[test]
fn weekdays() {
    // 2024-01-15 was a Monday.
    assert_eq!(weekday(d(2024, 1, 15)), 0);
    assert_eq!(isoweekday(d(2024, 1, 15)), 1);
    assert_eq!(weekday(d(2024, 1, 21)), 6);
    assert_eq!(isoweekday(d(2024, 1, 21)), 7);
    // 0001-01-01 was a Monday in the proleptic Gregorian calendar.
    assert_eq!(weekday(d(1, 1, 1)), 0);
}

#[test]
fn add_days_crosses_months_years_and_limits() {
    assert_eq!(add_days(d(2024, 2, 28), 1), Some(d(2024, 2, 29)));
    assert_eq!(add_days(d(2023, 12, 31), 1), Some(d(2024, 1, 1)));
    assert_eq!(add_days(d(2024, 3, 1), -1), Some(d(2024, 2, 29)));
    assert_eq!(add_days(d(9999, 12, 31), 1), None);
    assert_eq!(add_days(d(1, 1, 1), -1), None);
}

#[test]
fn adding_then_subtracting_days_gives_the_date_back() {
    let start = d(2021, 7, 4);
    for days in [0i64, 1, 59, 365, 1000, -400] {
        let later = add_days(start, days).unwrap();
        assert_eq!(add_days(later, -days), Some(start));
        assert_eq!(py_sub_date(later, start), days);
    }
}

#[test]
fn date_plus_and_minus_timedelta_on_the_heap() {
    let mut heap = Heap::new(4);
    let v = py_add(d(2024, 1, 31), 1, &mut heap).unwrap().unwrap();
    assert_eq!(heap_date(&heap, &v), d(2024, 2, 1));
    let v = py_sub_timedelta(d(2024, 1, 1), 1, &mut heap).unwrap().unwrap();
    assert_eq!(heap_date(&heap, &v), d(2023, 12, 31));
    assert!(py_add(d(9999, 12, 31), 1, &mut heap).unwrap().is_none());
}

#[test]
fn isoformat_and_repr() {
    assert_eq!(isoformat(d(2024, 1, 5)), "2024-01-05");
    assert_eq!(isoformat(d(33, 11, 22)), "0033-11-22");
    assert_eq!(py_repr(d(2024, 1, 5)), "datetime.date(2024, 1, 5)");
}

#[test]
fn date_constructor() {
    let mut heap = Heap::new(4);
    let v = init(args(vec![Value::Int(2024), Value::Int(2), Value::Int(29)]), &mut heap).unwrap();
    assert_eq!(heap_date(&heap, &v), d(2024, 2, 29));

    let v = init(kwargs(vec![("day", Value::Int(3)), ("year", Value::Int(2020)), ("month", Value::Int(4))]), &mut heap).unwrap();
    assert_eq!(heap_date(&heap, &v), d(2020, 4, 3));

    let e = init(args(vec![Value::Int(2024), Value::Int(2), Value::Int(30)]), &mut heap).unwrap_err();
    assert_eq!(e.exc_type, ExcType::ValueError);
    assert_eq!(e.message, "day 30 must be in range 1..29 for month 2 in year 2024");

    let e = init(args(vec![Value::Int(2024), Value::Int(2)]), &mut heap).unwrap_err();
    assert_eq!(e.exc_type, ExcType::TypeError);
    assert_eq!(e.message, "function missing required argument 'day' (pos 3)");

    let e = init(args(vec![Value::Int(1), Value::Int(2), Value::Int(3), Value::Int(4)]), &mut heap).unwrap_err();
    assert_eq!(e.message, "function takes at most 3 arguments (4 given)");

    let e = init(
        ArgValues { positional: vec![Value::Int(2024)], kwargs: vec![(Value::Str("year".to_owned()), Value::Int(1))] },
        &mut heap,
    )
    .unwrap_err();
    assert_eq!(e.message, "argument for function given by name ('year') and position (1)");
}

#[test]
fn component_beyond_c_int_overflows() {
    let heap = Heap::new(1);
    let e = value_to_i32(&Value::Int(1 << 40), &heap).unwrap_err();
    assert_eq!(e.exc_type, ExcType::OverflowError);
    assert_eq!(e.message, "Python int too large to convert to C int");
    assert_eq!(value_to_i32(&Value::Int(-7), &heap).unwrap(), -7);
}

#[test]
fn replace_changes_named_components() {
    let mut heap = Heap::new(4);
    let v = replace(d(2024, 1, 31), kwargs(vec![("month", Value::Int(3))]), &mut heap).unwrap();
    assert_eq!(heap_date(&heap, &v), d(2024, 3, 31));
    let e = replace(d(2024, 1, 31), kwargs(vec![("month", Value::Int(2))]), &mut heap).unwrap_err();
    assert_eq!(e.exc_type, ExcType::ValueError);
    let e = replace(d(2024, 1, 31), args(vec![Value::Int(1)]), &mut heap).unwrap_err();
    assert_eq!(e.message, "replace() takes 0 positional arguments");
}

#[test]
fn parse_iso_date_reads_year_month_day() {
    assert_eq!(parse_iso_date("2024-03-15"), Some(d(2024, 3, 15)));
    assert_eq!(parse_iso_date("not a date"), None);
    assert_eq!(parse_iso_date("2024-02-30"), None);
}

#[test]
fn fromisoformat_class_method() {
    let mut heap = Heap::new(4);
    let v = class_fromisoformat(args(vec![Value::Str("1999-12-31".to_owned())]), &mut heap).unwrap();
    assert_eq!(heap_date(&heap, &v), d(1999, 12, 31));
    let e = class_fromisoformat(args(vec![Value::Str("garbage".to_owned())]), &mut heap).unwrap_err();
    assert_eq!(e.exc_type, ExcType::ValueError);
    assert_eq!(e.message, "Invalid isoformat string: 'garbage'");
    let e = class_fromisoformat(args(vec![Value::Int(3)]), &mut heap).unwrap_err();
    assert_eq!(e.message, "fromisoformat: argument must be str");
}

#[test]
fn strftime_formats_with_chrono() {
    let mut heap = Heap::new(4);
    let v = strftime(d(2024, 7, 9), args(vec![Value::Str("%Y/%m/%d %A".to_owned())]), &mut heap).unwrap();
    assert!(matches!(v, Value::Str(ref s) if s == "2024/07/09 Tuesday"), "got {v:?}");
    let e = strftime(d(2024, 7, 9), args(vec![Value::Int(1)]), &mut heap).unwrap_err();
    assert_eq!(e.message, "descriptor 'strftime' requires a 'str' object but received a non-str type");
    let e = strftime(d(2024, 7, 9), args(vec![Value::Str("%Q".to_owned())]), &mut heap).unwrap_err();
    assert_eq!(e.exc_type, ExcType::ValueError);
    assert_eq!(e.message, "Invalid format string");
}

#[test]
fn attributes_and_methods() {
    let mut heap = Heap::new(4);
    let date = d(2024, 1, 15);
    assert!(matches!(py_getattr(date, "year"), Some(Value::Int(2024))));
    assert!(matches!(py_getattr(date, "month"), Some(Value::Int(1))));
    assert!(matches!(py_getattr(date, "day"), Some(Value::Int(15))));
    assert!(py_getattr(date, "hour").is_none());

    let v = py_call_attr(date, "isoformat", args(vec![]), &mut heap).unwrap();
    assert!(matches!(v, Value::Str(ref s) if s == "2024-01-15"));
    assert!(matches!(py_call_attr(date, "weekday", args(vec![]), &mut heap).unwrap(), Value::Int(0)));
    assert!(matches!(py_call_attr(date, "isoweekday", args(vec![]), &mut heap).unwrap(), Value::Int(1)));
    let e = py_call_attr(date, "weekday", args(vec![Value::Int(1)]), &mut heap).unwrap_err();
    assert_eq!(e.message, "date.weekday() takes no arguments (1 given)");
    let e = py_call_attr(date, "frobnicate", args(vec![]), &mut heap).unwrap_err();
    assert_eq!(e.exc_type, ExcType::AttributeError);
    assert_eq!(e.message, "'date' object has no attribute 'frobnicate'");
}
