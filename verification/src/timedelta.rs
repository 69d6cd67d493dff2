//! Python `datetime.timedelta`, as far as timezone offsets and date arithmetic need
//! it: a normalized (days, seconds, microseconds) triple.
use vstd::prelude::*;
use crate::text::{int_repr, push_i64, push_str, str_to_string};

verus! {

/// A duration, normalized as CPython does: `0 <= seconds < 86400` and
/// `0 <= microseconds < 1_000_000`; negative durations have negative days.
#[derive(Debug, Clone, Copy, PartialEq, Eq, Structural)]
pub struct TimeDelta {
    pub days: i32,
    pub seconds: i32,
    pub microseconds: i32,
}

/// Whether a duration is normalized.
pub open spec fn td_wf(t: TimeDelta) -> bool {
    0 <= t.seconds < 86400 && 0 <= t.microseconds < 1_000_000
}

/// The duration in whole seconds, ignoring microseconds.
pub open spec fn td_seconds(t: TimeDelta) -> int {
    t.days * 86400 + t.seconds
}

/// The duration in whole seconds, when it has no microsecond part.
pub fn exact_total_seconds(t: &TimeDelta) -> (r: Option<i64>)
    ensures
        r == if t.microseconds == 0 { Some(td_seconds(*t) as i64) } else { None::<i64> },
{
    if t.microseconds != 0 {
        return None;
    }
    Some(t.days as i64 * 86400 + t.seconds as i64)
}

/// The normalized duration of `s` seconds.
pub fn from_seconds(s: i32) -> (r: TimeDelta)
    ensures
        td_wf(r),
        td_seconds(r) == s,
        r.microseconds == 0,
{
    let mut days = s / 86400;
    let mut secs = s % 86400;
    if secs < 0 {
        secs = secs + 86400;
        days = days - 1;
    }
    TimeDelta { days, seconds: secs, microseconds: 0 }
}

/// CPython's `repr` of a timedelta: the nonzero components among `days`, `seconds`
/// and `microseconds`, or `datetime.timedelta(0)`.
pub open spec fn td_repr(t: TimeDelta) -> Seq<char> {
    if t.days == 0 && t.seconds == 0 && t.microseconds == 0 {
        "datetime.timedelta(0)"@
    } else {
        let d = if t.days != 0 { seq!["days="@ + int_repr(t.days as int)] } else { Seq::<Seq<char>>::empty() };
        let s = if t.seconds != 0 { seq!["seconds="@ + int_repr(t.seconds as int)] } else { Seq::<Seq<char>>::empty() };
        let u = if t.microseconds != 0 { seq!["microseconds="@ + int_repr(t.microseconds as int)] } else { Seq::<Seq<char>>::empty() };
        "datetime.timedelta("@ + join_comma(d + s + u) + ")"@
    }
}

/// The parts joined with `", "`.
pub open spec fn join_comma(parts: Seq<Seq<char>>) -> Seq<char>
    decreases parts.len(),
{
    if parts.len() == 0 {
        Seq::empty()
    } else if parts.len() == 1 {
        parts[0]
    } else {
        join_comma(parts.drop_last()) + ", "@ + parts.last()
    }
}

/// `repr(timedelta)`.
pub fn format_repr(t: &TimeDelta) -> (r: String)
    ensures
        r@ == td_repr(*t),
{
    if t.days == 0 && t.seconds == 0 && t.microseconds == 0 {
        return str_to_string("datetime.timedelta(0)");
    }
    let ghost d = if t.days != 0 { seq!["days="@ + int_repr(t.days as int)] } else { Seq::<Seq<char>>::empty() };
    let ghost sp = if t.seconds != 0 { seq!["seconds="@ + int_repr(t.seconds as int)] } else { Seq::<Seq<char>>::empty() };
    let ghost u = if t.microseconds != 0 { seq!["microseconds="@ + int_repr(t.microseconds as int)] } else { Seq::<Seq<char>>::empty() };
    let mut s = str_to_string("datetime.timedelta(");
    let mut first = true;
    let ghost mut parts: Seq<Seq<char>> = Seq::empty();
    if t.days != 0 {
        push_str(&mut s, "days=");
        push_i64(&mut s, t.days as i64);
        first = false;
        proof {
            parts = parts.push("days="@ + int_repr(t.days as int));
            assert(join_comma(parts) == "days="@ + int_repr(t.days as int));
        }
    }
    assert(parts == d);
    assert(s@ == "datetime.timedelta("@ + join_comma(parts));
    assert(first == (parts.len() == 0));
    if t.seconds != 0 {
        let ghost before = s@;
        if !first {
            push_str(&mut s, ", ");
        }
        push_str(&mut s, "seconds=");
        push_i64(&mut s, t.seconds as i64);
        first = false;
        proof {
            let old_parts = parts;
            parts = parts.push("seconds="@ + int_repr(t.seconds as int));
            assert(parts.drop_last() == old_parts);
        }
    }
    assert(parts == d + sp);
    assert(s@ == "datetime.timedelta("@ + join_comma(parts));
    if t.microseconds != 0 {
        if !first {
            push_str(&mut s, ", ");
        }
        push_str(&mut s, "microseconds=");
        push_i64(&mut s, t.microseconds as i64);
        proof {
            let old_parts = parts;
            parts = parts.push("microseconds="@ + int_repr(t.microseconds as int));
            assert(parts.drop_last() == old_parts);
        }
    }
    assert(parts == d + sp + u);
    push_str(&mut s, ")");
    s
}

} // verus!
