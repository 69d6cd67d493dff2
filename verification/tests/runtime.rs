//! Ranges, text helpers, timedeltas, timezones, the database pool, interrupt checks,
//! type-checking helpers, print output and modules.

use monty::exception::ExcType;
use monty::heap::{Heap, HeapData};
use monty::io::{append_streams_char, append_streams_str, PrintStream, PrintWriter, PrintWriterCallback};
use monty::limits::{check_cancellation, SignalCounter};
use monty::modules::{ModuleFunctions, StandardLib};
use monty::pool::{DbPool, MAX_POOLED_DBS};
use monty::range::Range;
use monty::text::{i64_to_string, str_equals, str_repr};
use monty::timedelta::{exact_total_seconds, format_repr, from_seconds, TimeDelta};
use monty::timezone::{format_offset_hms, TimeZone};
use monty::type_check::{adjust_annotation_span, filter_diagnostics, parse_diagnostic_format, to_ascii_lowercase, DiagnosticFormat};
use monty::value::{ArgValues, Value};
use monty::exception::RunError;

#[test]
fn range_length_membership_and_indexing() {
    let r = Range::new(0, 10, 3);
    assert_eq!(r.len(), 4);
    assert!(r.contains(9));
    assert!(!r.contains(10));
    assert!(!r.contains(4));
    assert_eq!(r.getitem(0).unwrap(), 0);
    assert_eq!(r.getitem(-1).unwrap(), 9);
    let e = r.getitem(4).unwrap_err();
    assert_eq!(e.exc_type, ExcType::IndexError);
    assert_eq!(e.message, "range object index out of range");

    let down = Range::new(10, 0, -4);
    assert_eq!(down.len(), 3);
    assert!(down.contains(2));
    assert!(Range::from_start_stop(5, 5).is_empty());
    assert_eq!(Range::from_stop(-3).len(), 0);
}

#[test]
fn range_length_saturates() {
    let r = Range::new(i64::MIN, i64::MAX, 1);
    assert_eq!(r.len(), usize::MAX);
}

#[test]
fn range_repr_and_equality() {
    assert_eq!(Range::from_stop(5).repr(), "range(0, 5)");
    assert_eq!(Range::new(1, -7, -2).repr(), "range(1, -7, -2)");
    // Empty ranges are all equal; otherwise start, step and length decide.
    assert!(Range::from_start_stop(3, 3).py_eq(&Range::new(10, 0, 1)));
    assert!(Range::new(0, 10, 3).py_eq(&Range::new(0, 11, 3)));
    assert!(!Range::new(0, 10, 3).py_eq(&Range::new(0, 13, 3)));
    // The step is compared for every non-empty range, single-element ones included.
    assert!(!Range::new(2, 3, 5).py_eq(&Range::new(2, 4, 7)));
}

#[test]
fn range_subscript_by_value() {
    let heap = Heap::new(4);
    let r = Range::new(10, 20, 3);
    assert!(matches!(r.py_getitem(&Value::Int(1), &heap), Ok(Value::Int(13))));
    assert!(matches!(r.py_getitem(&Value::Int(-1), &heap), Ok(Value::Int(19))));
    assert!(matches!(r.py_getitem(&Value::Bool(true), &heap), Ok(Value::Int(13))));
    let e = r.py_getitem(&Value::Int(4), &heap).unwrap_err();
    assert_eq!(e.exc_type, ExcType::IndexError);
    assert_eq!(e.message, "range object index out of range");
    let e = r.py_getitem(&Value::Str("0".to_owned()), &heap).unwrap_err();
    assert_eq!(e.exc_type, ExcType::TypeError);
    assert_eq!(e.message, "range indices must be integers or slices, not str");
}

#[test]
fn range_slicing() {
    // range(0, 20, 2)[1:4] == range(2, 8, 2)
    let s = Range::new(0, 20, 2).getitem_slice(1, 4, 1);
    assert_eq!(s, Range::new(2, 8, 2));
    // range(10)[::-1] == range(9, -1, -1)
    let s = Range::from_stop(10).getitem_slice(9, -1, -1);
    assert_eq!(s.start, 9);
    assert_eq!(s.step, -1);
    assert_eq!(s.len(), 10);
}

#[test]
fn range_constructor() {
    let mut heap = Heap::new(4);
    let v = Range::init(&vec![Value::Int(1), Value::Int(7), Value::Int(2)], &mut heap).unwrap();
    match v {
        Value::Ref(id) => assert!(matches!(heap.get(id), HeapData::Range(r) if *r == Range::new(1, 7, 2))),
        other => panic!("expected a range, got {other:?}"),
    }
    let e = Range::from_args(&vec![Value::Int(1), Value::Int(7), Value::Int(0)], &heap).unwrap_err();
    assert_eq!(e.exc_type, ExcType::ValueError);
    assert_eq!(e.message, "range() arg 3 must not be zero");
    let e = Range::from_args(&vec![], &heap).unwrap_err();
    assert_eq!(e.message, "range expected at least 1 argument, got 0");
    let e = Range::from_args(&vec![Value::Int(1), Value::Int(2), Value::Int(3), Value::Int(4)], &heap).unwrap_err();
    assert_eq!(e.message, "range expected at most 3 arguments, got 4");
}

#[test]
fn text_helpers() {
    assert_eq!(i64_to_string(-1234), "-1234");
    assert_eq!(i64_to_string(i64::MIN), "-9223372036854775808");
    assert!(str_equals("abc", "abc"));
    assert!(!str_equals("abc", "abd"));
    assert_eq!(str_repr("hi"), "'hi'");
    assert_eq!(str_repr("it's"), "\"it's\"");
    assert_eq!(str_repr("a\nb\\"), "'a\\nb\\\\'");
    assert_eq!(str_repr("both ' and \""), "'both \\' and \"'");
}

#[test]
fn timedelta_normalizes_and_formats() {
    assert_eq!(from_seconds(-1), TimeDelta { days: -1, seconds: 86399, microseconds: 0 });
    assert_eq!(from_seconds(90061), TimeDelta { days: 1, seconds: 3661, microseconds: 0 });
    assert_eq!(format_repr(&TimeDelta { days: 0, seconds: 0, microseconds: 0 }), "datetime.timedelta(0)");
    assert_eq!(format_repr(&from_seconds(3600)), "datetime.timedelta(seconds=3600)");
    assert_eq!(format_repr(&TimeDelta { days: -1, seconds: 5, microseconds: 7 }), "datetime.timedelta(days=-1, seconds=5, microseconds=7)");
    assert_eq!(exact_total_seconds(&from_seconds(-30)), Some(-30));
    assert_eq!(exact_total_seconds(&TimeDelta { days: 0, seconds: 1, microseconds: 5 }), None);
}

#[test]
fn timezone_offsets_and_text() {
    assert_eq!(format_offset_hms(19800), "+05:30");
    assert_eq!(format_offset_hms(-3661), "-01:01:01");
    let utc = TimeZone::utc();
    assert_eq!(utc.py_str(), "UTC");
    assert_eq!(utc.py_repr(), "datetime.timezone.utc");
    let tz = TimeZone::new(-18000, None).unwrap();
    assert_eq!(tz.py_str(), "UTC-05:00");
    assert_eq!(tz.format_utc_offset(), "-05:00");
    assert_eq!(tz.py_repr(), "datetime.timezone(datetime.timedelta(days=-1, seconds=68400))");
    let named = TimeZone::new(3600, Some("CET".to_owned())).unwrap();
    assert_eq!(named.py_str(), "CET");
    assert_eq!(named.py_repr(), "datetime.timezone(datetime.timedelta(seconds=3600), 'CET')");
    assert!(named.py_eq(&TimeZone::new(3600, None).unwrap()));
    assert!(!named.py_eq(&tz));
    let e = TimeZone::new(86400, None).unwrap_err();
    assert_eq!(e.exc_type, ExcType::ValueError);
    assert_eq!(
        e.message,
        "offset must be a timedelta strictly between -timedelta(hours=24) and timedelta(hours=24), not datetime.timedelta(seconds=86400)"
    );
}

#[test]
fn timezone_constructor_takes_a_timedelta() {
    let mut heap = Heap::new(4);
    let td = Value::Ref(heap.allocate(HeapData::TimeDelta(from_seconds(7200))).unwrap());
    let v = TimeZone::init(ArgValues::positional_only(vec![td]), &mut heap).unwrap();
    match v {
        Value::Ref(id) => match heap.get(id) {
            HeapData::TimeZone(tz) => assert_eq!(tz.offset_seconds, 7200),
            other => panic!("expected a timezone, got {other:?}"),
        },
        other => panic!("expected a heap reference, got {other:?}"),
    }
    let e = TimeZone::init(ArgValues::positional_only(vec![Value::Int(5)]), &mut heap).unwrap_err();
    assert_eq!(e.exc_type, ExcType::TypeError);
    assert_eq!(e.message, "timezone() argument 1 must be datetime.timedelta");
    let e = TimeZone::init(ArgValues::positional_only(vec![]), &mut heap).unwrap_err();
    assert_eq!(e.message, "timezone() missing required argument 'offset' (pos 1)");
}

#[test]
fn pool_keeps_at_most_eight_and_hands_back_the_last_released() {
    let mut pool = DbPool::new();
    assert!(pool.checkout().is_none());
    for i in 0..10 {
        pool.release(i);
    }
    assert_eq!(pool.len(), MAX_POOLED_DBS);
    assert_eq!(pool.checkout(), Some(7));
    pool.release(42);
    assert_eq!(pool.checkout(), Some(42));
    assert_eq!(pool.len(), 7);
}

#[test]
fn signal_checks_run_every_thousand_boundaries() {
    let mut c = SignalCounter::new();
    let mut checks = Vec::new();
    for i in 1..=3000u32 {
        if c.tick() {
            checks.push(i);
        }
    }
    assert_eq!(checks, vec![1000, 2000, 3000]);
    let mut c = SignalCounter { count: u16::MAX };
    assert!(c.tick()); // wraps to 0, a multiple of the interval
    assert_eq!(c.count, 0);
}

#[test]
fn cancellation_raises_keyboard_interrupt() {
    assert!(check_cancellation(false).is_ok());
    let e = check_cancellation(true).unwrap_err();
    assert_eq!(e.exc_type, ExcType::KeyboardInterrupt);
    assert_eq!(e.message, "Monty execution cancelled");
}

#[test]
fn diagnostic_formats() {
    assert_eq!(parse_diagnostic_format("FULL").unwrap(), DiagnosticFormat::Full);
    assert_eq!(parse_diagnostic_format("concise").unwrap(), DiagnosticFormat::Concise);
    assert_eq!(parse_diagnostic_format("json-lines").unwrap(), DiagnosticFormat::JsonLines);
    assert_eq!(parse_diagnostic_format("Bogus").unwrap_err(), "Unknown format: bogus");
    assert_eq!(to_ascii_lowercase("MiXeD-Ä"), "mixed-Ä");
}

#[test]
fn diagnostics_filtering_and_spans() {
    assert!(!filter_diagnostics(true, "`await` statement outside of a function"));
    assert!(!filter_diagnostics(true, "`await` outside of an asynchronous function"));
    assert!(filter_diagnostics(false, "`await` statement outside of a function"));
    assert!(filter_diagnostics(true, "something else"));
    assert_eq!(adjust_annotation_span(30, 42, 10), (20, 32));
}

#[test]
fn collected_streams_merge_neighbouring_writes() {
    let mut buf = Vec::new();
    append_streams_str(&mut buf, PrintStream::Stdout, "a");
    append_streams_char(&mut buf, PrintStream::Stdout, 'b');
    append_streams_str(&mut buf, PrintStream::Stderr, "c");
    append_streams_str(&mut buf, PrintStream::Stdout, "d");
    assert_eq!(buf, vec![
        (PrintStream::Stdout, "ab".to_owned()),
        (PrintStream::Stderr, "c".to_owned()),
        (PrintStream::Stdout, "d".to_owned()),
    ]);
}

struct Recorder {
    out: String,
}

impl PrintWriterCallback for Recorder {
    fn stdout_write(&mut self, output: &str) -> Result<(), RunError> {
        self.out.push_str(output);
        Ok(())
    }

    fn stdout_push(&mut self, end: char) -> Result<(), RunError> {
        self.out.push(end);
        Ok(())
    }
}

#[test]
fn print_writer_destinations() {
    let mut s = String::new();
    {
        let mut w: PrintWriter<'_, Recorder> = PrintWriter::CollectString(&mut s);
        assert!(!w.stdout_write("Hello world").unwrap());
        assert!(!w.reborrow().stdout_push('\n').unwrap());
    }
    assert_eq!(s, "Hello world\n");

    let mut w: PrintWriter<'_, Recorder> = PrintWriter::Stdout;
    assert!(w.stdout_write("x").unwrap());
    let mut w: PrintWriter<'_, Recorder> = PrintWriter::Disabled;
    assert!(!w.stdout_write("x").unwrap());

    let mut rec = Recorder { out: String::new() };
    {
        let mut w = PrintWriter::Callback(&mut rec);
        w.stdout_write("hi").unwrap();
        w.stdout_push(' ').unwrap();
    }
    assert_eq!(rec.out, "hi ");

    let mut streams = Vec::new();
    {
        let mut w: PrintWriter<'_, Recorder> = PrintWriter::CollectStreams(&mut streams);
        w.stdout_write("a").unwrap();
        w.stdout_push('\n').unwrap();
    }
    assert_eq!(streams, vec![(PrintStream::Stdout, "a\n".to_owned())]);
}

#[test]
fn modules_by_name() {
    assert_eq!(StandardLib::from_string_id("math"), Some(StandardLib::Math));
    assert_eq!(StandardLib::from_string_id("datetime"), Some(StandardLib::Datetime));
    assert_eq!(StandardLib::from_string_id("numpy"), None);
    let mut heap = Heap::new(2);
    let id = StandardLib::Sys.create(&mut heap).unwrap();
    assert!(matches!(heap.get(id), HeapData::Module(StandardLib::Sys)));
    assert_eq!(ModuleFunctions::Math("floor".to_owned()).py_repr_fmt(255), "<function floor at 0xff>");
}

#[test]
fn timezone_zero_offset_without_name_is_the_shared_utc() {
    let mut heap = Heap::new(8);
    let td = Value::Ref(heap.allocate(HeapData::TimeDelta(from_seconds(0))).unwrap());
    let a = TimeZone::init(ArgValues::positional_only(vec![td]), &mut heap).unwrap();
    let td = Value::Ref(heap.allocate(HeapData::TimeDelta(from_seconds(0))).unwrap());
    let b = TimeZone::init(ArgValues::positional_only(vec![td]), &mut heap).unwrap();
    match (a, b) {
        (Value::Ref(x), Value::Ref(y)) => {
            assert_eq!(x, y);
            match heap.get(x) {
                HeapData::TimeZone(tz) => {
                    assert_eq!(tz.offset_seconds, 0);
                    assert!(tz.name.is_none());
                },
                other => panic!("expected a timezone, got {other:?}"),
            }
        },
        other => panic!("expected heap references, got {other:?}"),
    }
}

#[test]
fn timezone_zero_offset_with_name_is_a_new_object() {
    let mut heap = Heap::new(8);
    let shared = match heap.get_timezone_utc().unwrap() {
        Value::Ref(id) => id,
        other => panic!("expected a heap reference, got {other:?}"),
    };
    let td = Value::Ref(heap.allocate(HeapData::TimeDelta(from_seconds(0))).unwrap());
    let v = TimeZone::init(
        ArgValues { positional: vec![td, Value::Str("Z".to_string())], kwargs: vec![] },
        &mut heap,
    );
    match v {
        Ok(Value::Ref(id)) => {
            assert_ne!(id, shared);
            match heap.get(id) {
                HeapData::TimeZone(tz) => assert_eq!(tz.name.as_deref(), Some("Z")),
                other => panic!("expected a timezone, got {other:?}"),
            }
        },
        Ok(other) => panic!("expected a heap reference, got {other:?}"),
        Err(e) => panic!("unexpected error {e:?}"),
    }
}

#[test]
fn reborrowed_writer_writes_to_the_same_buffer() {
    let mut out = String::new();
    {
        let mut w: PrintWriter<'_, dyn PrintWriterCallback> = PrintWriter::CollectString(&mut out);
        {
            let r = w.reborrow();
            if let PrintWriter::CollectString(b) = r {
                b.push_str("a");
            }
        }
        let r = w.reborrow();
        if let PrintWriter::CollectString(b) = r {
            b.push_str("b");
        }
    }
    assert_eq!(out, "ab");
}

#[test]
fn timezone_keyword_zero_offset_reuses_the_shared_utc() {
    let mut heap = Heap::new(8);
    let shared = match heap.get_timezone_utc().unwrap() {
        Value::Ref(id) => id,
        other => panic!("expected a heap reference, got {other:?}"),
    };
    let tid = heap.allocate(HeapData::TimeDelta(from_seconds(0))).unwrap();
    let v = TimeZone::init(
        ArgValues { positional: vec![], kwargs: vec![(Value::Str("offset".to_string()), Value::Ref(tid))] },
        &mut heap,
    )
    .unwrap();
    match v {
        Value::Ref(id) => assert_eq!(id, shared),
        other => panic!("expected a heap reference, got {other:?}"),
    }
    assert!(!heap.is_live(tid));
    assert!(heap.is_live(shared));
}
