//! Python `datetime.timezone` with a fixed offset from UTC (no daylight saving).
use vstd::prelude::*;
use crate::exception::{ExcType, RunError, is_error, unexpected_keyword_message};
use crate::heap::{Heap, HeapData, HeapView, data_ref_ids, leaves_alone, lemma_drop_leaves, only_frees, pair_values};
use crate::text::{digit_value, int_repr, lemma_zero_padded_two, two_digit_value, push_char, push_i64, push_str, push_u64, push_zero_padded, str_equals, str_repr, str_repr_spec, str_to_string, zero_padded};
use crate::timedelta::{TimeDelta, exact_total_seconds, format_repr, from_seconds, td_repr, td_seconds};
use crate::value::{ArgValues, HeapId, Value, drop_pairs, drop_values, keywords_must_be_strings};

verus! {

/// The smallest offset allowed: -23:59:59.
pub const MIN_TIMEZONE_OFFSET_SECONDS: i32 = -86399;

/// The largest offset allowed: +23:59:59.
pub const MAX_TIMEZONE_OFFSET_SECONDS: i32 = 86399;

/// A timezone: its offset from UTC in seconds and an optional display name.
#[derive(Debug)]
pub struct TimeZone {
    pub offset_seconds: i32,
    pub name: Option<String>,
}

/// `"offset must be a timedelta strictly between -timedelta(hours=24) and
/// timedelta(hours=24), not {repr}"`.
pub open spec fn offset_range_message(repr: Seq<char>) -> Seq<char> {
    "offset must be a timedelta strictly between -timedelta(hours=24) and timedelta(hours=24), not "@ + repr
}

/// Whether an offset lies strictly within a day either way.
pub open spec fn offset_in_range(o: int) -> bool {
    MIN_TIMEZONE_OFFSET_SECONDS <= o <= MAX_TIMEZONE_OFFSET_SECONDS
}

/// `+HH:MM`, or `+HH:MM:SS` when the offset has seconds; `-` for negative offsets.
pub open spec fn offset_hms(o: int) -> Seq<char> {
    let a = if o < 0 { -o } else { o };
    let h = a / 3600;
    let m = (a % 3600) / 60;
    let s = a % 60;
    seq![if o >= 0 { '+' } else { '-' }] + zero_padded(h as nat, 2) + ":"@ + zero_padded(m as nat, 2)
        + if s == 0 { Seq::<char>::empty() } else { ":"@ + zero_padded(s as nat, 2) }
}

/// The formatted offset reads back as the offset: with `HH`, `MM` and (when present)
/// `SS` the two-digit fields after the sign, `sign * (3600*HH + 60*MM + SS)` is the
/// offset, the hours are below 24 and the minutes and seconds below 60, and the
/// seconds field appears exactly when the offset has seconds.
pub proof fn law_offset_hms_reads_back(o: int)
    requires
        offset_in_range(o),
    ensures
        ({
            let s = offset_hms(o);
            let sign: int = if s[0] == '-' { -1 } else { 1 };
            let ss: int = if s.len() == 9 { two_digit_value(s, 7) } else { 0 };
            &&& s.len() == 6 || s.len() == 9
            &&& s[0] == (if o < 0 { '-' } else { '+' })
            &&& s[3] == ':' && (s.len() == 9 ==> s[6] == ':')
            &&& forall|k: int| 0 < k < s.len() && k != 3 && k != 6 ==> 0 <= #[trigger] digit_value(s[k]) <= 9
            &&& 0 <= two_digit_value(s, 1) < 24 && 0 <= two_digit_value(s, 4) < 60 && 0 <= ss < 60
            &&& (s.len() == 9) == (ss != 0)
            &&& sign * (3600 * two_digit_value(s, 1) + 60 * two_digit_value(s, 4) + ss) == o
        }),
{
    let mag: int = if o < 0 { -o } else { o };
    let h = mag / 3600;
    let m = (mag % 3600) / 60;
    let sec = mag % 60;
    assert(0 <= mag <= 86399);
    assert(3600 * h + 60 * m + sec == mag && 0 <= h < 24 && 0 <= m < 60 && 0 <= sec < 60) by (nonlinear_arith)
        requires
            0 <= mag <= 86399,
            h == mag / 3600,
            m == (mag % 3600) / 60,
            sec == mag % 60,
    {
        assert(mag == 3600 * (mag / 3600) + mag % 3600);
        assert(mag % 3600 == 60 * ((mag % 3600) / 60) + (mag % 3600) % 60);
        assert((mag % 3600) % 60 == mag % 60);
    }
    lemma_zero_padded_two(h as nat);
    lemma_zero_padded_two(m as nat);
    lemma_zero_padded_two(sec as nat);
    reveal_strlit(":");
    let zh = zero_padded(h as nat, 2);
    let zm = zero_padded(m as nat, 2);
    let zs = zero_padded(sec as nat, 2);
    let s = offset_hms(o);
    let head = seq![if o >= 0 { '+' } else { '-' }] + zh + ":"@ + zm;
    assert(head.len() == 6);
    assert(head[1] == zh[0] && head[2] == zh[1] && head[3] == ':' && head[4] == zm[0] && head[5] == zm[1]);
    if sec == 0 {
        assert(s =~= head);
    } else {
        let tail = ":"@ + zs;
        assert(s =~= head + tail);
        assert(s[6] == ':' && s[7] == zs[0] && s[8] == zs[1]);
    }
    assert(two_digit_value(s, 1) == two_digit_value(zh, 0));
    assert(two_digit_value(s, 4) == two_digit_value(zm, 0));
}

/// Formats an offset as `+HH:MM` or `+HH:MM:SS`.
pub fn format_offset_hms(offset_seconds: i32) -> (r: String)
    requires
        offset_seconds > i32::MIN,
    ensures
        r@ == offset_hms(offset_seconds as int),
{
    let a: i32 = if offset_seconds < 0 { -offset_seconds } else { offset_seconds };
    let h = a / 3600;
    let m = (a % 3600) / 60;
    let sec = a % 60;
    let mut s = String::new();
    push_char(&mut s, if offset_seconds >= 0 { '+' } else { '-' });
    push_zero_padded(&mut s, h as u64, 2);
    push_str(&mut s, ":");
    push_zero_padded(&mut s, m as u64, 2);
    if sec != 0 {
        push_str(&mut s, ":");
        push_zero_padded(&mut s, sec as u64, 2);
    }
    s
}

impl TimeZone {
    /// A fixed-offset timezone. ValueError, worded as CPython's, for an offset of a
    /// whole day or more either way.
    pub fn new(offset_seconds: i32, name: Option<String>) -> (r: Result<TimeZone, RunError>)
        ensures
            offset_in_range(offset_seconds as int) ==> (r matches Ok(tz) && tz.offset_seconds == offset_seconds && tz.name == name),
            !offset_in_range(offset_seconds as int) ==> (r matches Err(e) && is_error(e, ExcType::ValueError,
                offset_range_message("datetime.timedelta(seconds="@ + int_repr(offset_seconds as int) + ")"@))),
    {
        if offset_seconds < MIN_TIMEZONE_OFFSET_SECONDS || offset_seconds > MAX_TIMEZONE_OFFSET_SECONDS {
            let mut m = str_to_string("offset must be a timedelta strictly between -timedelta(hours=24) and timedelta(hours=24), not ");
            push_str(&mut m, "datetime.timedelta(seconds=");
            push_i64(&mut m, offset_seconds as i64);
            push_str(&mut m, ")");
            assert(m@ =~= offset_range_message("datetime.timedelta(seconds="@ + int_repr(offset_seconds as int) + ")"@));
            return Err(RunError { exc_type: ExcType::ValueError, message: m });
        }
        Ok(TimeZone { offset_seconds, name })
    }

    /// UTC: offset zero, no name.
    pub fn utc() -> (r: TimeZone)
        ensures
            r.offset_seconds == 0,
            r.name is None,
    {
        TimeZone { offset_seconds: 0, name: None }
    }

    /// The offset formatted as `+HH:MM` or `+HH:MM:SS`.
    pub fn format_utc_offset(&self) -> (r: String)
        requires
            self.offset_seconds > i32::MIN,
        ensures
            r@ == offset_hms(self.offset_seconds as int),
    {
        format_offset_hms(self.offset_seconds)
    }

    /// Timezones compare equal when their offsets are equal, whatever their names.
    pub fn py_eq(&self, other: &TimeZone) -> (r: bool)
        ensures
            r == (self.offset_seconds == other.offset_seconds),
    {
        self.offset_seconds == other.offset_seconds
    }

    /// `str(tz)`: the name if given, else `UTC` for a zero offset, else `UTC+HH:MM`.
    pub fn py_str(&self) -> (r: String)
        requires
            self.offset_seconds > i32::MIN,
        ensures
            r@ == match self.name {
                Some(n) => n@,
                None => if self.offset_seconds == 0 { "UTC"@ } else { "UTC"@ + offset_hms(self.offset_seconds as int) },
            },
    {
        match &self.name {
            Some(n) => n.clone(),
            None => {
                if self.offset_seconds == 0 {
                    str_to_string("UTC")
                } else {
                    let mut s = str_to_string("UTC");
                    let o = self.format_utc_offset();
                    push_str(&mut s, o.as_str());
                    s
                }
            },
        }
    }

    /// `repr(tz)`: `datetime.timezone.utc` for UTC, else
    /// `datetime.timezone(<offset as a timedelta>[, <name>])`.
    pub fn py_repr(&self) -> (r: String)
        ensures
            r@ == if self.offset_seconds == 0 && self.name is None {
                "datetime.timezone.utc"@
            } else {
                "datetime.timezone("@ + td_repr(offset_timedelta(self.offset_seconds as int)) + match self.name {
                    Some(n) => ", "@ + str_repr_spec(n@),
                    None => Seq::<char>::empty(),
                } + ")"@
            },
    {
        if self.offset_seconds == 0 && self.name.is_none() {
            return str_to_string("datetime.timezone.utc");
        }
        let td = from_seconds(self.offset_seconds);
        proof {
            lemma_offset_timedelta(self.offset_seconds as int, td);
        }
        let mut s = str_to_string("datetime.timezone(");
        let tr = format_repr(&td);
        push_str(&mut s, tr.as_str());
        if let Some(n) = &self.name {
            push_str(&mut s, ", ");
            let nr = str_repr(n.as_str());
            push_str(&mut s, nr.as_str());
        }
        push_str(&mut s, ")");
        s
    }
}

/// The normalized timedelta of `o` seconds.
pub open spec fn offset_timedelta(o: int) -> TimeDelta {
    TimeDelta { days: (o / 86400) as i32, seconds: (o % 86400) as i32, microseconds: 0 }
}

/// The timedelta an offset is shown as holds exactly that many seconds, with its
/// seconds part normalized to lie within a day.
pub proof fn law_offset_timedelta_exact(o: int)
    requires
        offset_in_range(o),
    ensures
        td_seconds(offset_timedelta(o)) == o,
        0 <= offset_timedelta(o).seconds < 86400,
        offset_timedelta(o).microseconds == 0,
{
    assert(o == 86400 * (o / 86400) + o % 86400 && 0 <= o % 86400 < 86400) by (nonlinear_arith);
    assert(-1 <= o / 86400 <= 0) by (nonlinear_arith)
        requires
            -86399 <= o <= 86399,
    ;
}

/// The normalized timedelta of an offset is the one built from it.
proof fn lemma_offset_timedelta(o: int, td: TimeDelta)
    requires
        i32::MIN <= o <= i32::MAX,
        crate::timedelta::td_wf(td),
        td_seconds(td) == o,
        td.microseconds == 0,
    ensures
        td == offset_timedelta(o),
{
    assert(td.days * 86400 + td.seconds == o);
    assert(td.days == o / 86400) by (nonlinear_arith)
        requires
            td.days * 86400 + td.seconds == o,
            0 <= td.seconds < 86400,
    ;
}

/// `"timezone() argument 1 must be datetime.timedelta"`.
pub open spec fn offset_type_message() -> Seq<char> {
    "timezone() argument 1 must be datetime.timedelta"@
}

/// `"offset must be a timedelta representing a whole number of seconds"`.
pub open spec fn whole_seconds_message() -> Seq<char> {
    "offset must be a timedelta representing a whole number of seconds"@
}

/// Reading the `offset` argument: a timedelta of whole seconds within a day either
/// way. Errors are (class, message).
pub open spec fn offset_arg_spec(v: Value, heap: HeapView) -> Result<i32, (ExcType, Seq<char>)> {
    match v {
        Value::Ref(id) => if heap.live(id) && heap.data(id) is TimeDelta {
            let t = heap.data(id)->TimeDelta_0;
            if t.microseconds != 0 {
                Err((ExcType::ValueError, whole_seconds_message()))
            } else if !offset_in_range(td_seconds(t)) {
                Err((ExcType::ValueError, offset_range_message(td_repr(t))))
            } else {
                Ok(td_seconds(t) as i32)
            }
        } else {
            Err((ExcType::TypeError, offset_type_message()))
        },
        _ => Err((ExcType::TypeError, offset_type_message())),
    }
}

/// Reads the `offset` argument of `timezone()` as seconds.
fn extract_offset_seconds(v: &Value, heap: &Heap) -> (r: Result<i32, RunError>)
    ensures
        match offset_arg_spec(*v, heap@) {
            Ok(n) => r == Ok::<i32, RunError>(n),
            Err(p) => r matches Err(e) && is_error(e, p.0, p.1),
        },
{
    let t = match v {
        Value::Ref(id) => {
            if !heap.is_live(*id) {
                return Err(RunError::from_str(ExcType::TypeError, "timezone() argument 1 must be datetime.timedelta"));
            }
            match heap.get(*id) {
                HeapData::TimeDelta(t) => *t,
                _ => return Err(RunError::from_str(ExcType::TypeError, "timezone() argument 1 must be datetime.timedelta")),
            }
        },
        _ => return Err(RunError::from_str(ExcType::TypeError, "timezone() argument 1 must be datetime.timedelta")),
    };
    let total = match exact_total_seconds(&t) {
        Some(s) => s,
        None => return Err(RunError::from_str(ExcType::ValueError, "offset must be a timedelta representing a whole number of seconds")),
    };
    if total < MIN_TIMEZONE_OFFSET_SECONDS as i64 || total > MAX_TIMEZONE_OFFSET_SECONDS as i64 {
        let mut m = str_to_string("offset must be a timedelta strictly between -timedelta(hours=24) and timedelta(hours=24), not ");
        let tr = format_repr(&t);
        push_str(&mut m, tr.as_str());
        return Err(RunError { exc_type: ExcType::ValueError, message: m });
    }
    Ok(total as i32)
}

/// `"timezone() argument 2 must be str"`.
pub open spec fn name_type_message() -> Seq<char> {
    "timezone() argument 2 must be str"@
}

/// Reading the `name` argument: a string.
pub open spec fn name_arg_spec(v: Value) -> Result<Option<String>, (ExcType, Seq<char>)> {
    match v {
        Value::Str(s) => Ok(Some(s)),
        _ => Err((ExcType::TypeError, name_type_message())),
    }
}

/// Reads the `name` argument of `timezone()`.
fn extract_name(v: &Value) -> (r: Result<Option<String>, RunError>)
    ensures
        match name_arg_spec(*v) {
            Ok(n) => r == Ok::<Option<String>, RunError>(n),
            Err(p) => r matches Err(e) && is_error(e, p.0, p.1),
        },
{
    match v {
        Value::Str(s) => Ok(Some(s.clone())),
        _ => Err(RunError::from_str(ExcType::TypeError, "timezone() argument 2 must be str")),
    }
}

/// The offset and name read so far by `timezone()`: the name slot is `Some` once
/// given (holding the optional string).
pub type TzFields = (Option<i32>, Option<Option<String>>);

/// The fields set by at most two positional arguments of `timezone()`.
pub open spec fn tz_pos_fields(pos: Seq<Value>, heap: HeapView) -> Result<TzFields, (ExcType, Seq<char>)> {
    if pos.len() == 0 {
        Ok((None, None))
    } else {
        match offset_arg_spec(pos[0], heap) {
            Err(p) => Err(p),
            Ok(o) => if pos.len() == 1 {
                Ok((Some(o), None))
            } else {
                match name_arg_spec(pos[1]) {
                    Err(p) => Err(p),
                    Ok(n) => Ok((Some(o), Some(n))),
                }
            },
        }
    }
}

/// `"argument for timezone() given by name ('{name}') and position ({pos})"`.
pub open spec fn tz_conflict_message(is_offset: bool) -> Seq<char> {
    if is_offset {
        "argument for timezone() given by name ('offset') and position (1)"@
    } else {
        "argument for timezone() given by name ('name') and position (2)"@
    }
}

/// The fields after reading the keyword arguments of `timezone()` in order.
pub open spec fn tz_kw_fields(kw: Seq<(Value, Value)>, st0: TzFields, heap: HeapView) -> Result<TzFields, (ExcType, Seq<char>)>
    decreases kw.len(),
{
    if kw.len() == 0 {
        Ok(st0)
    } else {
        match tz_kw_fields(kw.drop_last(), st0, heap) {
            Err(p) => Err(p),
            Ok(st) => {
                let (k, v) = kw.last();
                match k {
                    Value::Str(s) => if s@ == "offset"@ {
                        if st.0 is Some {
                            Err((ExcType::TypeError, tz_conflict_message(true)))
                        } else {
                            match offset_arg_spec(v, heap) {
                                Err(p) => Err(p),
                                Ok(o) => Ok((Some(o), st.1)),
                            }
                        }
                    } else if s@ == "name"@ {
                        if st.1 is Some {
                            Err((ExcType::TypeError, tz_conflict_message(false)))
                        } else {
                            match name_arg_spec(v) {
                                Err(p) => Err(p),
                                Ok(n) => Ok((st.0, Some(n))),
                            }
                        }
                    } else {
                        Err((ExcType::TypeError, unexpected_keyword_message("timezone"@, s@)))
                    },
                    _ => Err((ExcType::TypeError, keywords_must_be_strings())),
                }
            },
        }
    }
}

/// `"timezone() takes at most 2 arguments ({n} given)"`.
pub open spec fn tz_at_most_message(n: int) -> Seq<char> {
    "timezone() takes at most 2 arguments ("@ + int_repr(n) + " given)"@
}

/// `"timezone() missing required argument 'offset' (pos 1)"`.
pub open spec fn tz_missing_offset_message() -> Seq<char> {
    "timezone() missing required argument 'offset' (pos 1)"@
}

/// What `timezone(*pos, **kw)` computes before storing the timezone: its offset and
/// name, or the error as (class, message).
pub open spec fn tz_init_spec(pos: Seq<Value>, kw: Seq<(Value, Value)>, heap: HeapView) -> Result<(i32, Option<String>), (ExcType, Seq<char>)> {
    if pos.len() + kw.len() > 2 {
        Err((ExcType::TypeError, tz_at_most_message(pos.len() + kw.len() as int)))
    } else {
        match tz_pos_fields(pos, heap) {
            Err(p) => Err(p),
            Ok(st0) => match tz_kw_fields(kw, st0, heap) {
                Err(p) => Err(p),
                Ok(st) => match st.0 {
                    None => Err((ExcType::TypeError, tz_missing_offset_message())),
                    Some(o) => Ok((o, match st.1 { Some(n) => n, None => None })),
                },
            },
        }
    }
}

/// Once reading a prefix of the keyword arguments fails, reading them all fails the
/// same way.
proof fn lemma_tz_kw_err_sticky(kw: Seq<(Value, Value)>, i: nat, st0: TzFields, heap: HeapView)
    requires
        i <= kw.len(),
        tz_kw_fields(kw.take(i as int), st0, heap) is Err,
    ensures
        tz_kw_fields(kw, st0, heap) == tz_kw_fields(kw.take(i as int), st0, heap),
    decreases kw.len() - i,
{
    if i < kw.len() {
        assert(kw.take(i + 1int).drop_last() == kw.take(i as int));
        lemma_tz_kw_err_sticky(kw, i + 1, st0, heap);
    } else {
        assert(kw.take(i as int) == kw);
    }
}

/// Whether argument `v` is no heap reference, or one to an object other than `u`
/// that, while live on `heap`, refers to no other object.
pub open spec fn plain_arg(heap: HeapView, v: Value, u: HeapId) -> bool {
    v is Ref ==> v->Ref_0 != u && (heap.live(v->Ref_0) ==> data_ref_ids(heap.data(v->Ref_0)).len() == 0)
}

/// Positional arguments that `timezone()` accepts leave a timezone object alone.
proof fn lemma_pos_plain(pos: Seq<Value>, heap: HeapView, u: HeapId)
    requires
        pos.len() <= 2,
        tz_pos_fields(pos, heap) is Ok,
        heap.live(u) && heap.data(u) is TimeZone,
    ensures
        leaves_alone(heap, pos, u),
{
    assert forall|i: int| 0 <= i < pos.len() && #[trigger] pos[i] is Ref implies pos[i]->Ref_0 != u
        && (heap.live(pos[i]->Ref_0) ==> data_ref_ids(heap.data(pos[i]->Ref_0)).len() == 0) by {
        if i == 1 {
            assert(name_arg_spec(pos[1]) is Ok);
        }
        assert(heap.data(pos[i]->Ref_0) is TimeDelta);
    }
}

/// Keyword arguments that `timezone()` accepts have plain keys and values that leave
/// a timezone object alone.
proof fn lemma_kw_plain(kw: Seq<(Value, Value)>, st0: TzFields, heap: HeapView, u: HeapId)
    requires
        tz_kw_fields(kw, st0, heap) is Ok,
        heap.live(u) && heap.data(u) is TimeZone,
    ensures
        forall|i: int| 0 <= i < kw.len() ==> !(#[trigger] kw[i].0 is Ref) && plain_arg(heap, kw[i].1, u),
    decreases kw.len(),
{
    if kw.len() > 0 {
        lemma_kw_plain(kw.drop_last(), st0, heap, u);
        let (k, v) = kw.last();
        assert(k is Str);
        assert(plain_arg(heap, v, u)) by {
            if v is Ref {
                assert(heap.live(v->Ref_0) && heap.data(v->Ref_0) is TimeDelta);
            }
        }
        assert forall|i: int| 0 <= i < kw.len() implies !(#[trigger] kw[i].0 is Ref) && plain_arg(heap, kw[i].1, u) by {
            if i < kw.len() - 1 {
                assert(kw[i] == kw.drop_last()[i]);
            }
        }
    }
}

/// Reads the arguments of `timezone(offset, name=None)`.
fn tz_fields_from_args(pos: Vec<Value>, kw: Vec<(Value, Value)>, heap: &mut Heap) -> (r: Result<(i32, Option<String>), RunError>)
    requires
        old(heap).wf(),
        pos@.len() + kw@.len() <= usize::MAX,
    ensures
        final(heap).wf(),
        final(heap)@.slots.len() == old(heap)@.slots.len(),
        match tz_init_spec(pos@, kw@, old(heap)@) {
            Ok(t) => r == Ok::<(i32, Option<String>), RunError>(t),
            Err(p) => r matches Err(e) && is_error(e, p.0, p.1),
        },
        r matches Ok((o, _)) ==> offset_in_range(o as int),
        final(heap).utc_object() == old(heap).utc_object(),
        r is Ok && old(heap).shares_utc() ==> final(heap).shares_utc() && only_frees(old(heap)@, final(heap)@),
{
    let total = pos.len() + kw.len();
    if total > 2 {
        drop_values(pos, heap);
        drop_pairs(kw, heap);
        let mut m = str_to_string("timezone() takes at most 2 arguments (");
        push_u64(&mut m, total as u64);
        push_str(&mut m, " given)");
        return Err(RunError { exc_type: ExcType::TypeError, message: m });
    }
    let mut offset: Option<i32> = None;
    let mut name: Option<Option<String>> = None;
    if pos.len() >= 1 {
        match extract_offset_seconds(&pos[0], heap) {
            Ok(o) => offset = Some(o),
            Err(e) => {
                drop_values(pos, heap);
                drop_pairs(kw, heap);
                return Err(e);
            },
        }
        if pos.len() >= 2 {
            match extract_name(&pos[1]) {
                Ok(n) => name = Some(n),
                Err(e) => {
                    drop_values(pos, heap);
                    drop_pairs(kw, heap);
                    return Err(e);
                },
            }
        }
    }
    let ghost st0: TzFields = (offset, name);
    assert(tz_pos_fields(pos@, old(heap)@) == Ok::<TzFields, (ExcType, Seq<char>)>(st0));
    let mut j: usize = 0;
    while j < kw.len()
        invariant
            j <= kw@.len(),
            pos@.len() + kw@.len() <= 2,
            tz_pos_fields(pos@, old(heap)@) == Ok::<TzFields, (ExcType, Seq<char>)>(st0),
            tz_kw_fields(kw@.take(j as int), st0, old(heap)@) == Ok::<TzFields, (ExcType, Seq<char>)>((offset, name)),
            offset matches Some(o) ==> offset_in_range(o as int),
            heap@ == old(heap)@,
            heap.utc_object() == old(heap).utc_object(),
            heap.wf(),
        decreases kw@.len() - j,
    {
        proof {
            assert(kw@.take(j + 1).drop_last() == kw@.take(j as int));
            assert(kw@.take(j + 1).last() == kw@[j as int]);
        }
        let err = match &kw[j].0 {
            Value::Str(s) => {
                if str_equals(s.as_str(), "offset") {
                    if offset.is_some() {
                        Some(RunError::from_str(ExcType::TypeError, "argument for timezone() given by name ('offset') and position (1)"))
                    } else {
                        match extract_offset_seconds(&kw[j].1, heap) {
                            Ok(o) => {
                                offset = Some(o);
                                None
                            },
                            Err(e) => Some(e),
                        }
                    }
                } else if str_equals(s.as_str(), "name") {
                    if name.is_some() {
                        Some(RunError::from_str(ExcType::TypeError, "argument for timezone() given by name ('name') and position (2)"))
                    } else {
                        match extract_name(&kw[j].1) {
                            Ok(n) => {
                                name = Some(n);
                                None
                            },
                            Err(e) => Some(e),
                        }
                    }
                } else {
                    Some(crate::exception::type_error_unexpected_keyword("timezone", s.as_str()))
                }
            },
            _ => Some(RunError::from_str(ExcType::TypeError, "keywords must be strings")),
        };
        if let Some(e) = err {
            proof {
                lemma_tz_kw_err_sticky(kw@, (j + 1) as nat, st0, old(heap)@);
            }
            drop_values(pos, heap);
            drop_pairs(kw, heap);
            return Err(e);
        }
        j = j + 1;
    }
    proof {
        assert(kw@.take(kw@.len() as int) == kw@);
    }
    let ghost pv = pos@;
    let ghost kv = kw@;
    drop_values(pos, heap);
    let ghost hm = heap@;
    drop_pairs(kw, heap);
    proof {
        if offset is Some && old(heap).shares_utc() {
            let u = old(heap).utc_object()->0;
            let a = old(heap)@;
            lemma_pos_plain(pv, a, u);
            lemma_drop_leaves(a, hm, pv, 0, u);
            lemma_kw_plain(kv, st0, a, u);
            assert forall|i: int| 0 <= i < pair_values(kv).len() && #[trigger] pair_values(kv)[i] is Ref
                implies pair_values(kv)[i]->Ref_0 != u
                && (hm.live(pair_values(kv)[i]->Ref_0) ==> data_ref_ids(hm.data(pair_values(kv)[i]->Ref_0)).len() == 0) by {
                assert(plain_arg(a, kv[i / 2].1, u));
                let id = pair_values(kv)[i]->Ref_0;
                if hm.live(id) {
                    assert(a.live(id) && hm.data(id) == a.data(id));
                }
            }
            lemma_drop_leaves(hm, heap@, pair_values(kv), 0, u);
            assert forall|j: HeapId| #[trigger] heap@.live(j) implies a.live(j) && heap@.data(j) == a.data(j) by {
                assert(hm.live(j));
            }
        }
    }
    match offset {
        None => Err(RunError::from_str(ExcType::TypeError, "timezone() missing required argument 'offset' (pos 1)")),
        Some(o) => Ok((o, match name { Some(n) => n, None => None })),
    }
}

impl TimeZone {
    /// `timezone(offset, name=None)`: a new timezone on the heap, or for a zero
    /// offset without a name the heap's shared UTC timezone. TypeError, worded as CPython's, for more than two
    /// arguments, a missing or doubly given argument, an unknown keyword, an offset
    /// that is not a timedelta or a name that is not a string; ValueError for an
    /// offset with microseconds or of a day or more.
    pub fn init(args: ArgValues, heap: &mut Heap) -> (r: Result<Value, RunError>)
        requires
            old(heap).wf(),
            args.positional@.len() + args.kwargs@.len() <= usize::MAX,
        ensures
            final(heap).wf(),
            match tz_init_spec(args.positional@, args.kwargs@, old(heap)@) {
                Ok((o, n)) => {
                    &&& ({
                        ||| (r matches Ok(Value::Ref(id)) && final(heap)@.live(id)
                            && final(heap)@.data(id) == HeapData::TimeZone(TimeZone { offset_seconds: o, name: n }))
                        ||| (r matches Err(e) && e.exc_type == ExcType::MemoryError && old(heap)@.slots.len() >= usize::MAX)
                    })
                    &&& o == 0 && n is None ==> (r matches Ok(Value::Ref(id)) ==> final(heap).utc_object() == Some(id))
                    &&& o == 0 && n is None && old(heap).shares_utc() ==> {
                        &&& r == Ok::<Value, RunError>(Value::Ref(old(heap).utc_object()->0))
                        &&& only_frees(old(heap)@, final(heap)@)
                    }
                },
                Err(p) => r matches Err(e) && is_error(e, p.0, p.1),
            },
    {
        let ArgValues { positional, kwargs } = args;
        let (o, n) = tz_fields_from_args(positional, kwargs, heap)?;
        if o == 0 && n.is_none() {
            let ghost h1 = heap@;
            let r = heap.get_timezone_utc();
            proof {
                if old(heap).shares_utc() {
                    assert forall|j: HeapId| #[trigger] heap@.live(j) implies old(heap)@.live(j) && heap@.data(j) == old(heap)@.data(j) by {
                        assert(h1.live(j));
                    }
                }
            }
            return r;
        }
        let tz = TimeZone::new(o, n)?;
        let id = heap.allocate(HeapData::TimeZone(tz))?;
        Ok(Value::Ref(id))
    }
}

} // verus!
