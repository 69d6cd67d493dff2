//! Pieces of the type-checking front end that do not need the type checker: the
//! source file description, choosing a diagnostic output format by name, which
//! diagnostics to drop, and moving diagnostic spans past a stub prefix.
use vstd::prelude::*;
use crate::text::{push_str, str_equals, str_to_string};
use vstd::string::StrSliceExecFns;

verus! {

/// Source code to type check and the path it is reported under.
pub struct SourceFile<'a> {
    pub source_code: &'a str,
    pub path: &'a str,
}

impl<'a> SourceFile<'a> {
    /// A source file.
    pub fn new(source_code: &'a str, path: &'a str) -> (r: SourceFile<'a>)
        ensures
            r.source_code == source_code,
            r.path == path,
    {
        SourceFile { source_code, path }
    }
}

/// The output formats diagnostics can be rendered in.
#[derive(Debug, Clone, Copy, PartialEq, Eq, Structural)]
pub enum DiagnosticFormat {
    Full,
    Concise,
    Azure,
    Json,
    JsonLines,
    Rdjson,
    Pylint,
    Gitlab,
    Github,
}

/// ASCII lower case of a character; other characters stay as they are.
pub open spec fn ascii_lower(c: char) -> char {
    if 'A' <= c <= 'Z' { ((c as u32) + 32) as char } else { c }
}

/// ASCII lower case of a string.
pub open spec fn ascii_lower_str(s: Seq<char>) -> Seq<char> {
    Seq::new(s.len(), |i: int| ascii_lower(s[i]))
}

/// The format a (lower-cased) name selects.
pub open spec fn format_named(name: Seq<char>) -> Option<DiagnosticFormat> {
    if name == "full"@ {
        Some(DiagnosticFormat::Full)
    } else if name == "concise"@ {
        Some(DiagnosticFormat::Concise)
    } else if name == "azure"@ {
        Some(DiagnosticFormat::Azure)
    } else if name == "json"@ {
        Some(DiagnosticFormat::Json)
    } else if name == "jsonlines"@ || name == "json-lines"@ {
        Some(DiagnosticFormat::JsonLines)
    } else if name == "rdjson"@ {
        Some(DiagnosticFormat::Rdjson)
    } else if name == "pylint"@ {
        Some(DiagnosticFormat::Pylint)
    } else if name == "gitlab"@ {
        Some(DiagnosticFormat::Gitlab)
    } else if name == "github"@ {
        Some(DiagnosticFormat::Github)
    } else {
        None
    }
}

/// ASCII lower case of a string.
pub fn to_ascii_lowercase(s: &str) -> (r: String)
    ensures
        r@ == ascii_lower_str(s@),
{
    let n = s.unicode_len();
    let mut out = String::new();
    let mut i: usize = 0;
    while i < n
        invariant
            n == s@.len(),
            i <= n,
            out@ == ascii_lower_str(s@.subrange(0, i as int)),
        decreases n - i,
    {
        let c = s.get_char(i);
        let l = if 'A' <= c && c <= 'Z' { ((c as u32) + 32) as u8 as char } else { c };
        crate::text::push_char(&mut out, l);
        proof {
            assert(ascii_lower_str(s@.subrange(0, i + 1)) =~= ascii_lower_str(s@.subrange(0, i as int)).push(ascii_lower(c)));
        }
        i = i + 1;
    }
    assert(s@.subrange(0, n as int) =~= s@);
    out
}

/// Chooses a diagnostic format by name, ignoring ASCII case; `Unknown format: {name}`
/// (the lower-cased name) otherwise.
pub fn parse_diagnostic_format(format: &str) -> (r: Result<DiagnosticFormat, String>)
    ensures
        match format_named(ascii_lower_str(format@)) {
            Some(f) => r == Ok::<DiagnosticFormat, String>(f),
            None => r matches Err(m) && m@ == "Unknown format: "@ + ascii_lower_str(format@),
        },
{
    let lower = to_ascii_lowercase(format);
    let l = lower.as_str();
    if str_equals(l, "full") {
        Ok(DiagnosticFormat::Full)
    } else if str_equals(l, "concise") {
        Ok(DiagnosticFormat::Concise)
    } else if str_equals(l, "azure") {
        Ok(DiagnosticFormat::Azure)
    } else if str_equals(l, "json") {
        Ok(DiagnosticFormat::Json)
    } else if str_equals(l, "jsonlines") || str_equals(l, "json-lines") {
        Ok(DiagnosticFormat::JsonLines)
    } else if str_equals(l, "rdjson") {
        Ok(DiagnosticFormat::Rdjson)
    } else if str_equals(l, "pylint") {
        Ok(DiagnosticFormat::Pylint)
    } else if str_equals(l, "gitlab") {
        Ok(DiagnosticFormat::Gitlab)
    } else if str_equals(l, "github") {
        Ok(DiagnosticFormat::Github)
    } else {
        let mut m = str_to_string("Unknown format: ");
        push_str(&mut m, l);
        Err(m)
    }
}

/// Whether a diagnostic is kept: syntax errors about `await` outside a function are
/// dropped, since code run here may await at the top level.
pub open spec fn keep_diagnostic_spec(is_invalid_syntax: bool, message: Seq<char>) -> bool {
    !(is_invalid_syntax && (message == "`await` statement outside of a function"@
        || message == "`await` outside of an asynchronous function"@))
}

/// Whether a diagnostic (given whether it is an invalid-syntax one, and its primary
/// message) is reported.
pub fn filter_diagnostics(is_invalid_syntax: bool, message: &str) -> (r: bool)
    ensures
        r == keep_diagnostic_spec(is_invalid_syntax, message@),
{
    !(is_invalid_syntax && (str_equals(message, "`await` statement outside of a function")
        || str_equals(message, "`await` outside of an asynchronous function")))
}

/// Moves a span of the checked file back by `offset` (the length of a prefix that
/// was prepended before checking).
pub fn adjust_annotation_span(start: u32, end: u32, offset: u32) -> (r: (u32, u32))
    requires
        offset <= start <= end,
    ensures
        r.0 == start - offset,
        r.1 == end - offset,
{
    (start - offset, end - offset)
}

} // verus!
