//! Decimal and hexadecimal rendering of integers, and string building helpers.
//!
//! Python reprs and error messages embed integers; these functions render them
//! exactly as Rust's `{}`, `{:02}`, `{:04}` and `{:x}` format specifiers do.
use vstd::prelude::*;
use vstd::string::StrSliceExecFns;

verus! {

/// The ASCII character for a decimal digit.
pub open spec fn digit_char(d: nat) -> char {
    ((d + 48) as u8) as char
}

/// The value of a decimal digit character.
pub open spec fn digit_value(c: char) -> int {
    (c as int) - 48
}

/// The value of the two decimal digits at positions `i` and `i + 1` of `s`.
pub open spec fn two_digit_value(s: Seq<char>, i: int) -> int {
    10 * digit_value(s[i]) + digit_value(s[i + 1])
}

/// A digit's character reads back as the digit.
pub proof fn lemma_digit_char_value(d: nat)
    requires
        d < 10,
    ensures
        digit_value(digit_char(d)) == d,
{
}

/// A number below 100 padded to two digits is two digit characters that read back as
/// the number.
pub proof fn lemma_zero_padded_two(n: nat)
    requires
        n < 100,
    ensures
        zero_padded(n, 2).len() == 2,
        0 <= digit_value(zero_padded(n, 2)[0]) <= 9,
        0 <= digit_value(zero_padded(n, 2)[1]) <= 9,
        two_digit_value(zero_padded(n, 2), 0) == n,
{
    if n < 10 {
        lemma_digit_char_value(n);
        assert(decimal_digits(n) == seq![digit_char(n)]);
    } else {
        lemma_digit_char_value(n / 10);
        lemma_digit_char_value(n % 10);
        assert(decimal_digits(n / 10) == seq![digit_char(n / 10)]);
        assert(decimal_digits(n) == seq![digit_char(n / 10), digit_char(n % 10)]);
    }
}

/// A number from 1 to 9999 padded to four digits is four digit characters that read
/// back as the number.
pub proof fn lemma_zero_padded_four(n: nat)
    requires
        1 <= n <= 9999,
    ensures
        zero_padded(n, 4).len() == 4,
        forall|k: int| 0 <= k < 4 ==> 0 <= #[trigger] digit_value(zero_padded(n, 4)[k]) <= 9,
        1000 * digit_value(zero_padded(n, 4)[0]) + 100 * digit_value(zero_padded(n, 4)[1])
            + two_digit_value(zero_padded(n, 4), 2) == n,
{
    let a = n / 1000;
    let b = (n / 100) % 10;
    let c = (n / 10) % 10;
    let d = n % 10;
    assert(1000 * a + 100 * b + 10 * c + d == n && a < 10 && b < 10 && c < 10 && d < 10
        && n / 10 / 10 == n / 100 && n / 100 / 10 == a && (n / 10) / 10 % 10 == b) by (nonlinear_arith)
        requires
            1 <= n <= 9999,
            a == n / 1000,
            b == (n / 100) % 10,
            c == (n / 10) % 10,
            d == n % 10,
    ;
    lemma_digit_char_value(a);
    lemma_digit_char_value(b);
    lemma_digit_char_value(c);
    lemma_digit_char_value(d);
    lemma_digit_char_value(0);
    let z = zero_padded(n, 4);
    if n < 10 {
        assert(decimal_digits(n) == seq![digit_char(d)]);
        assert(z =~= seq!['0', '0', '0', digit_char(d)]);
    } else if n < 100 {
        assert(decimal_digits(n / 10) == seq![digit_char(c)]);
        assert(decimal_digits(n) =~= seq![digit_char(c), digit_char(d)]);
        assert(z =~= seq!['0', '0', digit_char(c), digit_char(d)]);
    } else if n < 1000 {
        assert(decimal_digits(n / 100) == seq![digit_char(b)]);
        assert(decimal_digits(n / 10) =~= seq![digit_char(b), digit_char(c)]);
        assert(decimal_digits(n) =~= seq![digit_char(b), digit_char(c), digit_char(d)]);
        assert(z =~= seq!['0', digit_char(b), digit_char(c), digit_char(d)]);
    } else {
        assert(decimal_digits(n / 1000) == seq![digit_char(a)]);
        assert(decimal_digits(n / 100) =~= seq![digit_char(a), digit_char(b)]);
        assert(decimal_digits(n / 10) =~= seq![digit_char(a), digit_char(b), digit_char(c)]);
        assert(decimal_digits(n) =~= seq![digit_char(a), digit_char(b), digit_char(c), digit_char(d)]);
        assert(z =~= seq![digit_char(a), digit_char(b), digit_char(c), digit_char(d)]);
    }
}

/// The ASCII character for a lower-case hexadecimal digit.
pub open spec fn hex_char(d: nat) -> char {
    if d < 10 {
        ((d + 48) as u8) as char
    } else {
        ((d + 87) as u8) as char
    }
}

/// Decimal digits of a natural number, most significant first, without leading zeros.
pub open spec fn decimal_digits(n: nat) -> Seq<char>
    decreases n,
{
    if n < 10 {
        seq![digit_char(n)]
    } else {
        decimal_digits(n / 10).push(digit_char(n % 10))
    }
}

/// Lower-case hexadecimal digits of a natural number, without leading zeros.
pub open spec fn hex_digits(n: nat) -> Seq<char>
    decreases n,
{
    if n < 16 {
        seq![hex_char(n)]
    } else {
        hex_digits(n / 16).push(hex_char(n % 16))
    }
}

/// What `{}` prints for an integer: a minus sign for negative values, then the
/// decimal digits of its magnitude.
pub open spec fn int_repr(i: int) -> Seq<char> {
    if i < 0 {
        seq!['-'] + decimal_digits((-i) as nat)
    } else {
        decimal_digits(i as nat)
    }
}

/// What `{:0w}` prints for a natural number: its digits left-padded with zeros to `width`.
pub open spec fn zero_padded(n: nat, width: nat) -> Seq<char> {
    let d = decimal_digits(n);
    if d.len() >= width {
        d
    } else {
        Seq::new((width - d.len()) as nat, |i: int| '0') + d
    }
}

/// Appends one character to a string.
#[verifier::external_body]
pub fn push_char(s: &mut String, c: char)
    ensures
        final(s)@ == old(s)@.push(c),
{
    s.push(c);
}

/// Appends a string slice to a string.
pub fn push_str(s: &mut String, t: &str)
    ensures
        final(s)@ == old(s)@ + t@,
{
    s.append(t);
}

/// The decimal digit characters of `n`.
pub fn decimal_chars(n: u64) -> (r: Vec<char>)
    ensures
        r@ == decimal_digits(n as nat),
    decreases n,
{
    if n < 10 {
        let c: char = ((n as u8) + 48) as char;
        let mut v: Vec<char> = Vec::new();
        v.push(c);
        v
    } else {
        let mut v = decimal_chars(n / 10);
        let d: u8 = (n % 10) as u8;
        v.push((d + 48) as char);
        v
    }
}

/// The lower-case hexadecimal digit characters of `n`.
pub fn hex_chars(n: u64) -> (r: Vec<char>)
    ensures
        r@ == hex_digits(n as nat),
    decreases n,
{
    let d: u8 = (n % 16) as u8;
    let c: char = if d < 10 { (d + 48) as char } else { (d + 87) as char };
    if n < 16 {
        let mut v: Vec<char> = Vec::new();
        v.push(c);
        v
    } else {
        let mut v = hex_chars(n / 16);
        v.push(c);
        v
    }
}

/// Appends every character of `chars` to `s`.
pub fn push_chars(s: &mut String, chars: &Vec<char>)
    ensures
        final(s)@ == old(s)@ + chars@,
{
    let mut i: usize = 0;
    while i < chars.len()
        invariant
            i <= chars.len(),
            s@ == old(s)@ + chars@.subrange(0, i as int),
        decreases chars.len() - i,
    {
        push_char(s, chars[i]);
        i = i + 1;
        assert(chars@.subrange(0, i as int) == chars@.subrange(0, i - 1).push(chars@[i - 1]));
    }
    assert(chars@.subrange(0, chars.len() as int) == chars@);
}

/// Appends the decimal rendering of an unsigned integer (`{}`).
pub fn push_u64(s: &mut String, n: u64)
    ensures
        final(s)@ == old(s)@ + decimal_digits(n as nat),
{
    let d = decimal_chars(n);
    push_chars(s, &d);
}

/// Appends the decimal rendering of a signed integer (`{}`).
pub fn push_i64(s: &mut String, n: i64)
    ensures
        final(s)@ == old(s)@ + int_repr(n as int),
{
    if n < 0 {
        push_char(s, '-');
        let mag: u64 = if n == i64::MIN { 9223372036854775808u64 } else { (-n) as u64 };
        push_u64(s, mag);
        assert(old(s)@ + int_repr(n as int) == old(s)@.push('-') + decimal_digits(mag as nat));
    } else {
        push_u64(s, n as u64);
    }
}

/// Appends the lower-case hexadecimal rendering of an unsigned integer (`{:x}`).
pub fn push_hex(s: &mut String, n: u64)
    ensures
        final(s)@ == old(s)@ + hex_digits(n as nat),
{
    let d = hex_chars(n);
    push_chars(s, &d);
}

/// Appends a natural number left-padded with zeros to `width` characters (`{:0width}`).
pub fn push_zero_padded(s: &mut String, n: u64, width: usize)
    ensures
        final(s)@ == old(s)@ + zero_padded(n as nat, width as nat),
{
    let d = decimal_chars(n);
    let ghost start = s@;
    if d.len() < width {
        let pad = width - d.len();
        let mut i: usize = 0;
        while i < pad
            invariant
                i <= pad,
                s@ == start + Seq::new(i as nat, |j: int| '0'),
            decreases pad - i,
        {
            push_char(s, '0');
            i = i + 1;
            assert(Seq::new(i as nat, |j: int| '0') == Seq::new((i - 1) as nat, |j: int| '0').push('0'));
        }
        push_chars(s, &d);
        assert(s@ == start + (Seq::new(pad as nat, |j: int| '0') + d@));
    } else {
        push_chars(s, &d);
    }
}

/// A string holding the decimal rendering of `n` (`n.to_string()`).
pub fn i64_to_string(n: i64) -> (r: String)
    ensures
        r@ == int_repr(n as int),
{
    let mut s = String::new();
    push_i64(&mut s, n);
    assert(s@ == Seq::<char>::empty() + int_repr(n as int));
    s
}

/// Whether two string slices hold the same characters.
pub fn str_equals(a: &str, b: &str) -> (r: bool)
    ensures
        r == (a@ == b@),
{
    let n = a.unicode_len();
    if n != b.unicode_len() {
        return false;
    }
    let mut i: usize = 0;
    while i < n
        invariant
            n == a@.len(),
            n == b@.len(),
            i <= n,
            a@.subrange(0, i as int) == b@.subrange(0, i as int),
        decreases n - i,
    {
        if a.get_char(i) != b.get_char(i) {
            return false;
        }
        assert(a@.subrange(0, i + 1) == a@.subrange(0, i as int).push(a@[i as int]));
        assert(b@.subrange(0, i + 1) == b@.subrange(0, i as int).push(b@[i as int]));
        i = i + 1;
    }
    assert(a@.subrange(0, n as int) == a@);
    assert(b@.subrange(0, n as int) == b@);
    true
}

/// Whether `a` begins with `prefix`.
pub fn str_starts_with(a: &str, prefix: &str) -> (r: bool)
    ensures
        r == prefix@.is_prefix_of(a@),
{
    let n = prefix.unicode_len();
    if n > a.unicode_len() {
        return false;
    }
    let mut i: usize = 0;
    while i < n
        invariant
            n == prefix@.len(),
            n <= a@.len(),
            i <= n,
            prefix@.subrange(0, i as int) == a@.subrange(0, i as int),
        decreases n - i,
    {
        if a.get_char(i) != prefix.get_char(i) {
            assert(prefix@[i as int] != a@[i as int]);
            return false;
        }
        assert(a@.subrange(0, i + 1) == a@.subrange(0, i as int).push(a@[i as int]));
        assert(prefix@.subrange(0, i + 1) == prefix@.subrange(0, i as int).push(prefix@[i as int]));
        i = i + 1;
    }
    assert(prefix@.subrange(0, n as int) == prefix@);
    true
}

/// A string holding a copy of `t`.
pub fn str_to_string(t: &str) -> (r: String)
    ensures
        r@ == t@,
{
    let mut s = String::new();
    push_str(&mut s, t);
    assert(s@ == Seq::<char>::empty() + t@);
    s
}

/// How a character appears inside a Python string literal quoted with `quote`:
/// backslash, the quote, newline, carriage return and tab are escaped, other control
/// characters are written `\xNN`, everything else stands as it is.
pub open spec fn repr_char(c: char, quote: char) -> Seq<char> {
    if c == '\\' {
        seq!['\\', '\\']
    } else if c == quote {
        seq!['\\', quote]
    } else if c == '\n' {
        seq!['\\', 'n']
    } else if c == '\r' {
        seq!['\\', 'r']
    } else if c == '\t' {
        seq!['\\', 't']
    } else if (c as int) < 0x20 || (c as int) == 0x7f {
        seq!['\\', 'x', hex_char((c as nat) / 16), hex_char((c as nat) % 16)]
    } else {
        seq![c]
    }
}

/// The escaped characters of `s` for a literal quoted with `quote`.
pub open spec fn repr_body(s: Seq<char>, quote: char) -> Seq<char>
    decreases s.len(),
{
    if s.len() == 0 { Seq::empty() } else { repr_body(s.drop_last(), quote) + repr_char(s.last(), quote) }
}

/// Python's `repr` of a string: single quotes, or double quotes when the string holds
/// a single quote and no double quote.
pub open spec fn str_repr_spec(s: Seq<char>) -> Seq<char> {
    let q = if s.contains('\'') && !s.contains('"') { '"' } else { '\'' };
    seq![q] + repr_body(s, q) + seq![q]
}

/// Appends one character as it appears inside a string literal quoted with `quote`.
fn push_repr_char(out: &mut String, c: char, quote: char)
    ensures
        final(out)@ == old(out)@ + repr_char(c, quote),
{
    if c == '\\' {
        push_char(out, '\\');
        push_char(out, '\\');
    } else if c == quote {
        push_char(out, '\\');
        push_char(out, quote);
    } else if c == '\n' {
        push_char(out, '\\');
        push_char(out, 'n');
    } else if c == '\r' {
        push_char(out, '\\');
        push_char(out, 'r');
    } else if c == '\t' {
        push_char(out, '\\');
        push_char(out, 't');
    } else if (c as u32) < 0x20 || (c as u32) == 0x7f {
        let code = c as u32;
        let hi: u8 = (code / 16) as u8;
        let lo: u8 = (code % 16) as u8;
        push_char(out, '\\');
        push_char(out, 'x');
        push_char(out, if hi < 10 { (hi + 48) as char } else { (hi + 87) as char });
        push_char(out, if lo < 10 { (lo + 48) as char } else { (lo + 87) as char });
    } else {
        push_char(out, c);
    }
}

/// Python's `repr` of a string.
pub fn str_repr(s: &str) -> (r: String)
    ensures
        r@ == str_repr_spec(s@),
{
    let n = s.unicode_len();
    let mut has_single = false;
    let mut has_double = false;
    let mut i: usize = 0;
    while i < n
        invariant
            n == s@.len(),
            i <= n,
            has_single == s@.subrange(0, i as int).contains('\''),
            has_double == s@.subrange(0, i as int).contains('"'),
        decreases n - i,
    {
        let c = s.get_char(i);
        proof {
            assert(s@.subrange(0, i + 1) == s@.subrange(0, i as int).push(c));
            assert forall|x: char| s@.subrange(0, i + 1).contains(x) == (s@.subrange(0, i as int).contains(x) || x == c) by {
                let t = s@.subrange(0, i + 1);
                if x == c {
                    assert(t[i as int] == c);
                }
                if s@.subrange(0, i as int).contains(x) {
                    let k = choose|k: int| 0 <= k < i && s@.subrange(0, i as int)[k] == x;
                    assert(t[k] == x);
                }
            }
        }
        if c == '\'' {
            has_single = true;
        }
        if c == '"' {
            has_double = true;
        }
        i = i + 1;
    }
    assert(s@.subrange(0, n as int) == s@);
    let q = if has_single && !has_double { '"' } else { '\'' };
    let mut out = String::new();
    push_char(&mut out, q);
    let ghost start = out@;
    let mut j: usize = 0;
    while j < n
        invariant
            n == s@.len(),
            j <= n,
            start == seq![q],
            out@ == start + repr_body(s@.subrange(0, j as int), q),
        decreases n - j,
    {
        let c = s.get_char(j);
        push_repr_char(&mut out, c, q);
        proof {
            assert(s@.subrange(0, j + 1).drop_last() == s@.subrange(0, j as int));
            assert(s@.subrange(0, j + 1).last() == c);
        }
        j = j + 1;
    }
    push_char(&mut out, q);
    out
}

} // verus!
