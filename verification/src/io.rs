//! Where the `print()` builtin's output goes.
//!
//! Output can be discarded, written to the process's standard output, collected into
//! one string, collected as (stream, text) entries, or handed to a callback. When
//! collecting entries, consecutive writes to the same stream extend the last entry,
//! so one `print(a, b)` gives a single `(Stdout, "a b\n")` entry.
use vstd::prelude::*;
use crate::exception::RunError;
use crate::text::{push_char, push_str, str_to_string};

verus! {

/// The stream a piece of output belongs to.
#[derive(Debug, Clone, Copy, PartialEq, Eq, Structural)]
pub enum PrintStream {
    Stdout,
    Stderr,
}

/// Custom handling of `print()` output, implemented by users of the library.
pub trait PrintWriterCallback {
    /// Receives the text of one printed argument (no separator or terminator).
    fn stdout_write(&mut self, output: &str) -> Result<(), RunError>;

    /// Receives one separator or terminator character.
    fn stdout_push(&mut self, end: char) -> Result<(), RunError>;
}

/// The destination of `print()` output; `C` is the callback type (usually
/// `dyn PrintWriterCallback`).
pub enum PrintWriter<'a, C: PrintWriterCallback + ?Sized> {
    /// Discard all output.
    Disabled,
    /// Write to the process's standard output.
    Stdout,
    /// Append all output to one string.
    CollectString(&'a mut String),
    /// Append output as (stream, text) entries, merging consecutive writes to the
    /// same stream.
    CollectStreams(&'a mut Vec<(PrintStream, String)>),
    /// Hand output to a callback.
    Callback(&'a mut C),
}

impl<'a, C: PrintWriterCallback + ?Sized> PrintWriter<'a, C> {
    /// A writer to the same destination, borrowing this one, so a sequence of runs
    /// can each take a writer by value while all writing to one target.
    pub fn reborrow(&mut self) -> (r: PrintWriter<'_, C>)
        ensures
            (r is Disabled) == (*old(self) is Disabled),
            (r is Stdout) == (*old(self) is Stdout),
            (r is CollectString) == (*old(self) is CollectString),
            (r is CollectStreams) == (*old(self) is CollectStreams),
            (r is Callback) == (*old(self) is Callback),
            (*old(self)) is CollectString ==> *(r->CollectString_0) == *(old(self)->CollectString_0),
            (*old(self)) is CollectString ==> (*final(self)) is CollectString && *(final(self)->CollectString_0) == *final(r->CollectString_0),
            (*old(self)) is CollectStreams ==> *(r->CollectStreams_0) == *(old(self)->CollectStreams_0),
            (*old(self)) is CollectStreams ==> (*final(self)) is CollectStreams && *(final(self)->CollectStreams_0) == *final(r->CollectStreams_0),
    {
        match self {
            PrintWriter::Disabled => PrintWriter::Disabled,
            PrintWriter::Stdout => PrintWriter::Stdout,
            PrintWriter::CollectString(buf) => PrintWriter::CollectString(buf),
            PrintWriter::CollectStreams(buf) => PrintWriter::CollectStreams(buf),
            PrintWriter::Callback(cb) => PrintWriter::Callback(&mut **cb),
        }
    }
}

/// All collected text, in order.
pub open spec fn flatten(buf: Seq<(PrintStream, String)>) -> Seq<char>
    decreases buf.len(),
{
    if buf.len() == 0 { Seq::empty() } else { flatten(buf.drop_last()) + buf.last().1@ }
}

/// Whether no two neighbouring entries belong to the same stream.
pub open spec fn merged(buf: Seq<(PrintStream, String)>) -> bool {
    forall|i: int| 0 <= i < buf.len() - 1 ==> #[trigger] buf[i].0 != buf[i + 1].0
}

/// What appending `text` on `stream` does to the entries: the last entry grows when
/// it has the same stream, else a new entry ends the list.
pub open spec fn appended(old_buf: Seq<(PrintStream, String)>, new_buf: Seq<(PrintStream, String)>, stream: PrintStream, text: Seq<char>) -> bool {
    if old_buf.len() > 0 && old_buf.last().0 == stream {
        &&& new_buf.len() == old_buf.len()
        &&& new_buf.drop_last() == old_buf.drop_last()
        &&& new_buf.last().0 == stream
        &&& new_buf.last().1@ == old_buf.last().1@ + text
    } else {
        &&& new_buf.len() == old_buf.len() + 1
        &&& new_buf.drop_last() == old_buf
        &&& new_buf.last().0 == stream
        &&& new_buf.last().1@ == text
    }
}

/// Appends text to the collected entries, extending the last entry when it has the
/// same stream.
pub fn append_streams_str(buf: &mut Vec<(PrintStream, String)>, stream: PrintStream, text: &str)
    ensures
        appended(old(buf)@, final(buf)@, stream, text@),
{
    let n = buf.len();
    if n > 0 && buf[n - 1].0 == stream {
        let (s, mut existing) = buf.pop().unwrap();
        push_str(&mut existing, text);
        buf.push((s, existing));
        proof {
            assert(buf@.drop_last() == old(buf)@.drop_last());
        }
    } else {
        buf.push((stream, str_to_string(text)));
        proof {
            assert(buf@.drop_last() == old(buf)@);
        }
    }
}

/// Appends one character to the collected entries, extending the last entry when it
/// has the same stream.
pub fn append_streams_char(buf: &mut Vec<(PrintStream, String)>, stream: PrintStream, ch: char)
    ensures
        appended(old(buf)@, final(buf)@, stream, seq![ch]),
{
    let n = buf.len();
    if n > 0 && buf[n - 1].0 == stream {
        let (s, mut existing) = buf.pop().unwrap();
        let ghost before = existing@;
        push_char(&mut existing, ch);
        assert(existing@ =~= before + seq![ch]);
        buf.push((s, existing));
        proof {
            assert(buf@.drop_last() == old(buf)@.drop_last());
        }
    } else {
        let mut t = String::new();
        push_char(&mut t, ch);
        buf.push((stream, t));
        proof {
            assert(t@ == seq![ch]);
            assert(buf@.drop_last() == old(buf)@);
        }
    }
}

/// The texts of a sequence of writes, one after the other.
pub open spec fn written_text(writes: Seq<(PrintStream, Seq<char>)>) -> Seq<char>
    decreases writes.len(),
{
    if writes.len() == 0 { Seq::empty() } else { written_text(writes.drop_last()) + writes.last().1 }
}

/// Over any sequence of writes, collecting loses nothing and keeps entries merged:
/// when `bufs[i + 1]` is `bufs[i]` with write `i` appended, the last collection holds
/// the first one's text followed by every written text in order, and if no two
/// neighbouring entries shared a stream at first, none do at the end.
pub proof fn law_writes_keep_text_and_merging(bufs: Seq<Seq<(PrintStream, String)>>, writes: Seq<(PrintStream, Seq<char>)>)
    requires
        bufs.len() == writes.len() + 1,
        forall|i: int| 0 <= i < writes.len() ==> #[trigger] appended(bufs[i], bufs[i + 1], writes[i].0, writes[i].1),
    ensures
        flatten(bufs.last()) == flatten(bufs[0]) + written_text(writes),
        merged(bufs[0]) ==> merged(bufs.last()),
    decreases writes.len(),
{
    if writes.len() == 0 {
        assert(flatten(bufs[0]) + written_text(writes) =~= flatten(bufs[0]));
    } else {
        let n = writes.len() - 1;
        let pre = bufs.drop_last();
        assert forall|i: int| 0 <= i < writes.drop_last().len() implies #[trigger] appended(pre[i], pre[i + 1], writes.drop_last()[i].0, writes.drop_last()[i].1) by {
            assert(appended(bufs[i], bufs[i + 1], writes[i].0, writes[i].1));
        }
        law_writes_keep_text_and_merging(pre, writes.drop_last());
        assert(appended(bufs[n], bufs[n + 1], writes[n].0, writes[n].1));
        law_append_keeps_text_and_merging(bufs[n], bufs[n + 1], writes[n].0, writes[n].1);
        assert(pre.last() == bufs[n]);
        assert(flatten(bufs[0]) + written_text(writes) =~= flatten(bufs[0]) + written_text(writes.drop_last()) + writes[n].1);
    }
}

/// Collecting loses nothing and keeps entries merged: after an append, the collected
/// text is the old text followed by the new text, and if no two neighbouring entries
/// shared a stream before, none do after.
pub proof fn law_append_keeps_text_and_merging(old_buf: Seq<(PrintStream, String)>, new_buf: Seq<(PrintStream, String)>, stream: PrintStream, text: Seq<char>)
    requires
        appended(old_buf, new_buf, stream, text),
    ensures
        flatten(new_buf) == flatten(old_buf) + text,
        merged(old_buf) ==> merged(new_buf),
{
    if old_buf.len() > 0 && old_buf.last().0 == stream {
        assert(new_buf.drop_last() == old_buf.drop_last());
        assert(flatten(new_buf) == flatten(old_buf.drop_last()) + new_buf.last().1@);
        assert(flatten(old_buf) == flatten(old_buf.drop_last()) + old_buf.last().1@);
        if merged(old_buf) {
            assert forall|i: int| 0 <= i < new_buf.len() - 1 implies #[trigger] new_buf[i].0 != new_buf[i + 1].0 by {
                assert(new_buf[i] == new_buf.drop_last()[i]);
                assert(old_buf[i] == old_buf.drop_last()[i]);
                if i + 1 < new_buf.len() - 1 {
                    assert(new_buf[i + 1] == new_buf.drop_last()[i + 1]);
                    assert(old_buf[i + 1] == old_buf.drop_last()[i + 1]);
                } else {
                    assert(old_buf[i].0 != old_buf[i + 1].0);
                }
            }
        }
    } else {
        assert(new_buf.drop_last() == old_buf);
        if merged(old_buf) {
            assert forall|i: int| 0 <= i < new_buf.len() - 1 implies #[trigger] new_buf[i].0 != new_buf[i + 1].0 by {
                assert(new_buf[i] == new_buf.drop_last()[i]);
                if i + 1 < new_buf.len() - 1 {
                    assert(new_buf[i + 1] == new_buf.drop_last()[i + 1]);
                }
            }
        }
    }
}

impl<'a, C: PrintWriterCallback + ?Sized> PrintWriter<'a, C> {
    /// Writes the text of one printed argument. Returns whether the text is meant for
    /// the process's standard output, which the caller then writes; collected output
    /// is appended, disabled output dropped, and a callback receives the text (its
    /// error is passed on).
    pub fn stdout_write(&mut self, output: &str) -> (r: Result<bool, RunError>)
        ensures
            *old(self) is Stdout ==> r == Ok::<bool, RunError>(true),
            *old(self) is Disabled ==> r == Ok::<bool, RunError>(false),
            (*final(self) is Stdout) == (*old(self) is Stdout),
            r == Ok::<bool, RunError>(true) ==> *old(self) is Stdout,
            (*final(self) is Disabled) == (*old(self) is Disabled),
            (*final(self) is Callback) == (*old(self) is Callback),
            *old(self) is CollectString || *old(self) is CollectStreams ==> r == Ok::<bool, RunError>(false),
            *old(self) matches PrintWriter::CollectString(b) ==> (*final(self) matches PrintWriter::CollectString(b2) && b2@ == b@ + output@),
            *old(self) matches PrintWriter::CollectStreams(b) ==> (*final(self) matches PrintWriter::CollectStreams(b2)
                && appended(b@, b2@, PrintStream::Stdout, output@)),
    {
        match self {
            PrintWriter::Disabled => Ok(false),
            PrintWriter::Stdout => Ok(true),
            PrintWriter::CollectString(buf) => {
                push_str(buf, output);
                Ok(false)
            },
            PrintWriter::CollectStreams(buf) => {
                append_streams_str(buf, PrintStream::Stdout, output);
                Ok(false)
            },
            PrintWriter::Callback(cb) => {
                cb.stdout_write(output)?;
                Ok(false)
            },
        }
    }
}

impl<'a, C: PrintWriterCallback + ?Sized> PrintWriter<'a, C> {
    /// Writes one separator or terminator character. Returns whether it is meant for
    /// the process's standard output, which the caller then writes; collected output
    /// is appended, disabled output dropped, and a callback receives the character
    /// (its error is passed on).
    pub fn stdout_push(&mut self, end: char) -> (r: Result<bool, RunError>)
        ensures
            *old(self) is Stdout ==> r == Ok::<bool, RunError>(true),
            *old(self) is Disabled ==> r == Ok::<bool, RunError>(false),
            (*final(self) is Stdout) == (*old(self) is Stdout),
            r == Ok::<bool, RunError>(true) ==> *old(self) is Stdout,
            (*final(self) is Disabled) == (*old(self) is Disabled),
            (*final(self) is Callback) == (*old(self) is Callback),
            *old(self) is CollectString || *old(self) is CollectStreams ==> r == Ok::<bool, RunError>(false),
            *old(self) matches PrintWriter::CollectString(b) ==> (*final(self) matches PrintWriter::CollectString(b2) && b2@ == b@.push(end)),
            *old(self) matches PrintWriter::CollectStreams(b) ==> (*final(self) matches PrintWriter::CollectStreams(b2)
                && appended(b@, b2@, PrintStream::Stdout, seq![end])),
    {
        match self {
            PrintWriter::Disabled => Ok(false),
            PrintWriter::Stdout => Ok(true),
            PrintWriter::CollectString(buf) => {
                push_char(buf, end);
                Ok(false)
            },
            PrintWriter::CollectStreams(buf) => {
                append_streams_char(buf, PrintStream::Stdout, end);
                Ok(false)
            },
            PrintWriter::Callback(cb) => {
                cb.stdout_push(end)?;
                Ok(false)
            },
        }
    }
}

} // verus!
