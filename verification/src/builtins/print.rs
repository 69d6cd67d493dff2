//! The `print()` builtin.
//!
//! `print(*values, sep=' ', end='\n', flush=False)`: the values' strings joined by
//! `sep`, then `end`, written to the print writer. `flush` is accepted and ignored;
//! `file` is not supported. The keywords are checked before anything is written.
//! Turning a value into its string is the interpreter's job: [`builtin_print`]
//! checks the call and hands back the values, and [`PrintPending::finish`] writes
//! their strings.
use vstd::prelude::*;
use crate::exception::{ExcType, RunError, is_error, unexpected_keyword_message};
use crate::heap::{Heap, HeapView};
use crate::io::{PrintWriter, PrintWriterCallback, flatten};
use crate::text::{push_str, str_equals, str_to_string};
use crate::value::{ArgValues, Value, drop_pairs, drop_values, keywords_must_be_strings, py_type, py_type_spec, type_str, type_str_spec};

verus! {

/// `"{name} must be None or a string, not {t}"`.
pub open spec fn string_kwarg_message(name: Seq<char>, t: Seq<char>) -> Seq<char> {
    name + " must be None or a string, not "@ + t
}

/// `"print() 'file' argument is not supported"`.
pub open spec fn file_not_supported_message() -> Seq<char> {
    "print() 'file' argument is not supported"@
}

/// What a `sep=` or `end=` value means: `None` keeps the default, a string replaces
/// it; anything else is a TypeError with the given message.
pub open spec fn string_kwarg_spec(v: Value, name: Seq<char>, heap: HeapView) -> Result<Option<Seq<char>>, Seq<char>> {
    match v {
        Value::NoneValue => Ok(None),
        Value::Str(s) => Ok(Some(s@)),
        _ => Err(string_kwarg_message(name, type_str_spec(py_type_spec(v, heap)))),
    }
}

/// Reading print's keyword arguments in order: the `sep` and `end` given (a later
/// one replacing an earlier one), or the TypeError message of the first offending
/// keyword.
pub open spec fn print_kwargs_spec(kwargs: Seq<(Value, Value)>, heap: HeapView) -> Result<(Option<Seq<char>>, Option<Seq<char>>), Seq<char>>
    decreases kwargs.len(),
{
    if kwargs.len() == 0 {
        Ok((None, None))
    } else {
        match print_kwargs_spec(kwargs.drop_last(), heap) {
            Err(m) => Err(m),
            Ok((sep, end)) => {
                let (k, v) = kwargs.last();
                match k {
                    Value::Str(s) => if s@ == "sep"@ {
                        match string_kwarg_spec(v, "sep"@, heap) {
                            Ok(x) => Ok((x, end)),
                            Err(m) => Err(m),
                        }
                    } else if s@ == "end"@ {
                        match string_kwarg_spec(v, "end"@, heap) {
                            Ok(x) => Ok((sep, x)),
                            Err(m) => Err(m),
                        }
                    } else if s@ == "flush"@ {
                        Ok((sep, end))
                    } else if s@ == "file"@ {
                        Err(file_not_supported_message())
                    } else {
                        Err(unexpected_keyword_message("print"@, s@))
                    },
                    _ => Err(keywords_must_be_strings()),
                }
            },
        }
    }
}

/// The characters of an optional string.
pub open spec fn opt_chars(s: Option<String>) -> Option<Seq<char>> {
    match s {
        Some(x) => Some(x@),
        None => None,
    }
}

/// The strings joined by `sep`.
pub open spec fn joined(strs: Seq<Seq<char>>, sep: Seq<char>) -> Seq<char>
    decreases strs.len(),
{
    if strs.len() == 0 {
        Seq::empty()
    } else if strs.len() == 1 {
        strs[0]
    } else {
        joined(strs.drop_last(), sep) + sep + strs.last()
    }
}

/// The text `print` writes for the strings of its arguments: joined by `sep` (a space
/// by default), followed by `end` (a newline by default).
pub open spec fn print_text(strs: Seq<Seq<char>>, sep: Option<Seq<char>>, end: Option<Seq<char>>) -> Seq<char> {
    joined(strs, match sep { Some(s) => s, None => " "@ }) + match end { Some(e) => e, None => "\n"@ }
}

/// The characters of each string.
pub open spec fn chars_of_all(strs: Seq<String>) -> Seq<Seq<char>> {
    strs.map_values(|s: String| s@)
}

/// Reads a `sep=` or `end=` value: `None` for `None`, the string for a string.
/// TypeError for anything else.
pub fn extract_string_kwarg(value: &Value, name: &str, heap: &Heap) -> (r: Result<Option<String>, RunError>)
    ensures
        match string_kwarg_spec(*value, name@, heap@) {
            Ok(x) => r matches Ok(y) && opt_chars(y) == x,
            Err(m) => r matches Err(e) && is_error(e, ExcType::TypeError, m),
        },
{
    match value {
        Value::NoneValue => Ok(None),
        Value::Str(s) => Ok(Some(str_to_string(s.as_str()))),
        _ => {
            let mut m = str_to_string(name);
            push_str(&mut m, " must be None or a string, not ");
            push_str(&mut m, type_str(py_type(value, heap)));
            Err(RunError { exc_type: ExcType::TypeError, message: m })
        },
    }
}

/// Once reading a prefix of print's keywords fails, reading them all fails with the
/// same message.
proof fn lemma_print_kwargs_err_sticky(all: Seq<(Value, Value)>, i: nat, heap: HeapView)
    requires
        i <= all.len(),
        print_kwargs_spec(all.take(i as int), heap) is Err,
    ensures
        print_kwargs_spec(all, heap) == print_kwargs_spec(all.take(i as int), heap),
    decreases all.len() - i,
{
    if i < all.len() {
        assert(all.take(i + 1int).drop_last() == all.take(i as int));
        lemma_print_kwargs_err_sticky(all, i + 1, heap);
    } else {
        assert(all.take(i as int) == all);
    }
}

/// Reads print's keyword arguments: `sep` and `end` (each `None` or a string), and
/// `flush` (ignored). TypeError for `file`, for any other keyword, for a keyword that
/// is not a string, or for a `sep`/`end` of another type. Every key and value is
/// dropped.
pub fn extract_print_kwargs(kwargs: Vec<(Value, Value)>, heap: &mut Heap) -> (r: Result<(Option<String>, Option<String>), RunError>)
    requires
        old(heap).wf(),
    ensures
        final(heap).wf(),
        match print_kwargs_spec(kwargs@, old(heap)@) {
            Ok((sep, end)) => r matches Ok((s, e)) && opt_chars(s) == sep && opt_chars(e) == end,
            Err(m) => r matches Err(err) && is_error(err, ExcType::TypeError, m),
        },
        crate::heap::pairs_dropped_from(old(heap)@, final(heap)@, kwargs@, 0),
{
    let ghost all = kwargs@;
    let ghost h0 = heap@;
    let mut sep: Option<String> = None;
    let mut end: Option<String> = None;
    let mut i: usize = 0;
    while i < kwargs.len()
        invariant
            i <= all.len(),
            all == kwargs@,
            h0 == old(heap)@,
            print_kwargs_spec(all.take(i as int), h0) == Ok::<(Option<Seq<char>>, Option<Seq<char>>), Seq<char>>((opt_chars(sep), opt_chars(end))),
            heap.wf(),
            heap@ == h0,
        decreases all.len() - i,
    {
        proof {
            assert(all.take(i + 1).drop_last() == all.take(i as int));
            assert(all.take(i + 1).last() == all[i as int]);
        }
        let k = &kwargs[i].0;
        let v = &kwargs[i].1;
        let step: Result<u8, RunError> = match k {
            Value::Str(s) => {
                if str_equals(s.as_str(), "sep") {
                    match extract_string_kwarg(v, "sep", heap) {
                        Ok(x) => {
                            sep = x;
                            Ok(0)
                        },
                        Err(e) => Err(e),
                    }
                } else if str_equals(s.as_str(), "end") {
                    match extract_string_kwarg(v, "end", heap) {
                        Ok(x) => {
                            end = x;
                            Ok(0)
                        },
                        Err(e) => Err(e),
                    }
                } else if str_equals(s.as_str(), "flush") {
                    Ok(0)
                } else if str_equals(s.as_str(), "file") {
                    Err(RunError::from_str(ExcType::TypeError, "print() 'file' argument is not supported"))
                } else {
                    Err(crate::exception::type_error_unexpected_keyword("print", s.as_str()))
                }
            },
            _ => Err(RunError::from_str(ExcType::TypeError, "keywords must be strings")),
        };
        match step {
            Ok(_) => {},
            Err(e) => {
                proof {
                    assert(print_kwargs_spec(all.take(i + 1), h0) == Err::<(Option<Seq<char>>, Option<Seq<char>>), Seq<char>>(e.message@));
                    assert(e.exc_type == ExcType::TypeError);
                    lemma_print_kwargs_err_sticky(all, (i + 1) as nat, h0);
                }
                drop_pairs(kwargs, heap);
                return Err(e);
            },
        }
        i = i + 1;
    }
    assert(all.take(all.len() as int) == all);
    drop_pairs(kwargs, heap);
    Ok((sep, end))
}

/// A `print()` call whose arguments were checked: the values to print, with the
/// separator and terminator given (the defaults when `None`).
#[derive(Debug)]
pub struct PrintPending {
    pub values: Vec<Value>,
    pub sep: Option<String>,
    pub end: Option<String>,
}

/// `print(*values, sep=..., end=..., flush=...)`: checks the keywords (see
/// [`extract_print_kwargs`]; on an error the values are dropped) and hands back
/// the values, whose strings the caller computes and passes to
/// [`PrintPending::finish`].
pub fn builtin_print(args: ArgValues, heap: &mut Heap) -> (r: Result<PrintPending, RunError>)
    requires
        old(heap).wf(),
    ensures
        final(heap).wf(),
        match print_kwargs_spec(args.kwargs@, old(heap)@) {
            Ok((sep, end)) => r matches Ok(p) && p.values@ == args.positional@ && opt_chars(p.sep) == sep && opt_chars(p.end) == end,
            Err(m) => r matches Err(e) && is_error(e, ExcType::TypeError, m),
        },
        r is Ok ==> crate::heap::pairs_dropped_from(old(heap)@, final(heap)@, args.kwargs@, 0),
        r is Err ==> crate::heap::args_released(old(heap)@, final(heap)@, args.positional@, args.kwargs@),
{
    let ArgValues { positional, kwargs } = args;
    match extract_print_kwargs(kwargs, heap) {
        Ok((sep, end)) => Ok(PrintPending { values: positional, sep, end }),
        Err(e) => {
            let ghost m = heap@;
            drop_values(positional, heap);
            proof {
                assert(crate::heap::pairs_dropped_from(old(heap)@, m, args.kwargs@, 0) && crate::heap::dropped_from(m, heap@, args.positional@, 0));
            }
            Err(e)
        },
    }
}

impl PrintPending {
    /// Writes the strings of the values (`strs`, one per value, in order) to
    /// `writer`, separated by `sep` (a space by default) and followed by `end` (a
    /// newline by default), then drops the values. The result is the text meant for
    /// the process's standard output, which the caller writes there: all of it for
    /// a writer to standard output, nothing for the others. A callback's error is
    /// passed on.
    pub fn finish<'a, C: PrintWriterCallback + ?Sized>(self, strs: Vec<String>, writer: &mut PrintWriter<'a, C>, heap: &mut Heap) -> (r: Result<String, RunError>)
        requires
            old(heap).wf(),
            strs@.len() == self.values@.len(),
        ensures
            final(heap).wf(),
            *old(writer) is Stdout ==> (r matches Ok(t) && t@ == print_text(chars_of_all(strs@), opt_chars(self.sep), opt_chars(self.end))),
            *old(writer) is Disabled ==> (r matches Ok(t) && t@.len() == 0),
            *old(writer) matches PrintWriter::CollectString(b) ==> ((r matches Ok(t) && t@.len() == 0)
                && (*final(writer) matches PrintWriter::CollectString(b2)
                && b2@ == b@ + print_text(chars_of_all(strs@), opt_chars(self.sep), opt_chars(self.end)))),
            *old(writer) matches PrintWriter::CollectStreams(b) ==> ((r matches Ok(t) && t@.len() == 0)
                && (*final(writer) matches PrintWriter::CollectStreams(b2)
                && flatten(b2@) == flatten(b@) + print_text(chars_of_all(strs@), opt_chars(self.sep), opt_chars(self.end)))),
    {
        let PrintPending { values, sep, end } = self;
        drop_values(values, heap);
        proof {
            reveal_strlit(" ");
            reveal_strlit("\n");
            assert(" "@ =~= seq![' ']);
            assert("\n"@ =~= seq!['\n']);
        }
        let ghost texts = chars_of_all(strs@);
        let ghost sep_s: Seq<char> = match opt_chars(sep) { Some(s) => s, None => " "@ };
        let ghost end_s: Seq<char> = match opt_chars(end) { Some(e) => e, None => "\n"@ };
        let ghost w0 = *writer;
        let mut out = String::new();
        let mut i: usize = 0;
        while i < strs.len()
            invariant
                i <= strs@.len(),
                heap.wf(),
                w0 == *old(writer),
                " "@ == seq![' '],
                texts == chars_of_all(strs@),
                sep_s == match opt_chars(sep) { Some(s) => s, None => " "@ },
                (*writer is Stdout) == (w0 is Stdout),
                (*writer is Disabled) == (w0 is Disabled),
                (*writer is Callback) == (w0 is Callback),
                w0 is Stdout ==> out@ == joined(texts.take(i as int), sep_s),
                !(w0 is Stdout) ==> out@.len() == 0,
                w0 matches PrintWriter::CollectString(b) ==> (*writer matches PrintWriter::CollectString(b2)
                    && b2@ == b@ + joined(texts.take(i as int), sep_s)),
                w0 matches PrintWriter::CollectStreams(b) ==> (*writer matches PrintWriter::CollectStreams(b2)
                    && flatten(b2@) == flatten(b@) + joined(texts.take(i as int), sep_s)),
            decreases strs@.len() - i,
        {
            let ghost before = joined(texts.take(i as int), sep_s);
            let ghost wb = *writer;
            proof {
                assert(texts.take(i + 1).drop_last() == texts.take(i as int));
                assert(texts.take(i + 1).last() == strs@[i as int]@);
                if i == 0 {
                    assert(joined(texts.take(1), sep_s) == strs@[0]@);
                }
            }
            if i > 0 {
                match &sep {
                    Some(s) => {
                        if writer.stdout_write(s.as_str())? {
                            push_str(&mut out, s.as_str());
                        }
                    },
                    None => {
                        if writer.stdout_push(' ')? {
                            crate::text::push_char(&mut out, ' ');
                        }
                    },
                }
                proof {
                    if let PrintWriter::CollectStreams(b1) = wb {
                        let b2 = writer->CollectStreams_0;
                        crate::io::law_append_keeps_text_and_merging(b1@, b2@, crate::io::PrintStream::Stdout, sep_s);
                    }
                }
            }
            let ghost wm = *writer;
            let ghost out_m = out@;
            if writer.stdout_write(strs[i].as_str())? {
                push_str(&mut out, strs[i].as_str());
            }
            proof {
                if let PrintWriter::CollectStreams(b1) = wm {
                    let b2 = writer->CollectStreams_0;
                    crate::io::law_append_keeps_text_and_merging(b1@, b2@, crate::io::PrintStream::Stdout, strs@[i as int]@);
                }
                if i > 0 {
                    assert(joined(texts.take(i + 1), sep_s) == before + sep_s + strs@[i as int]@);
                }
            }
            i = i + 1;
        }
        proof {
            assert(texts.take(strs@.len() as int) == texts);
        }
        let ghost wb = *writer;
        match &end {
            Some(e) => {
                if writer.stdout_write(e.as_str())? {
                    push_str(&mut out, e.as_str());
                }
            },
            None => {
                if writer.stdout_push('\n')? {
                    crate::text::push_char(&mut out, '\n');
                }
            },
        }
        proof {
            if let PrintWriter::CollectStreams(b1) = wb {
                let b2 = writer->CollectStreams_0;
                crate::io::law_append_keeps_text_and_merging(b1@, b2@, crate::io::PrintStream::Stdout, end_s);
            }
        }
        Ok(out)
    }
}

} // verus!
