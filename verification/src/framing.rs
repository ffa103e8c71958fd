//! The header part of the editor protocol's message framing.
//!
//! A message is a block of header lines, a blank line, then a body of as
//! many bytes as the `Content-Length` header says. Reading a message feeds
//! each header line to [`read_header`] until it reports the end of the
//! headers; writing one starts with [`content_length_header`].

use crate::text::{is_ascii_digit, push_char};
use vstd::prelude::*;
use vstd::std_specs::iter::IteratorSpec;

verus! {

/// Whether `c` is white space in Unicode (the `White_Space` property).
pub open spec fn is_white(c: char) -> bool {
    ||| ('\u{9}' <= c && c <= '\u{d}')
    ||| c == ' '
    ||| c == '\u{85}'
    ||| c == '\u{a0}'
    ||| c == '\u{1680}'
    ||| ('\u{2000}' <= c && c <= '\u{200a}')
    ||| c == '\u{2028}'
    ||| c == '\u{2029}'
    ||| c == '\u{202f}'
    ||| c == '\u{205f}'
    ||| c == '\u{3000}'
}

/// The line without the line breaks (`\r` and `\n`) it ends with.
pub open spec fn without_line_breaks(line: Seq<char>) -> Seq<char>
    decreases line.len(),
{
    if line.len() > 0 && (line.last() == '\r' || line.last() == '\n') {
        without_line_breaks(line.drop_last())
    } else {
        line
    }
}

/// The text without white space at its end.
pub open spec fn trimmed_end(text: Seq<char>) -> Seq<char>
    decreases text.len(),
{
    if text.len() > 0 && is_white(text.last()) {
        trimmed_end(text.drop_last())
    } else {
        text
    }
}

/// The text without white space at its start.
pub open spec fn trimmed_start(text: Seq<char>) -> Seq<char>
    decreases text.len(),
{
    if text.len() > 0 && is_white(text[0]) {
        trimmed_start(text.drop_first())
    } else {
        text
    }
}

/// The text without white space at either end.
pub open spec fn trimmed(text: Seq<char>) -> Seq<char> {
    trimmed_end(trimmed_start(text))
}

/// The index of the first `:` in the text, if it has one.
pub open spec fn first_colon(text: Seq<char>) -> Option<int>
    decreases text.len(),
{
    if text.len() == 0 {
        None
    } else {
        match first_colon(text.drop_last()) {
            Some(i) => Some(i),
            None => if text.last() == ':' {
                Some(text.len() - 1)
            } else {
                None
            },
        }
    }
}

/// The lowercase form of an uppercase ASCII letter; other characters stay.
pub open spec fn ascii_lowered(c: char) -> char {
    if 'A' <= c && c <= 'Z' {
        ((c as u32) + 32) as char
    } else {
        c
    }
}

/// Whether the two texts are the same but for the case of ASCII letters.
pub open spec fn same_ignoring_ascii_case(a: Seq<char>, b: Seq<char>) -> bool {
    a.len() == b.len() && forall|i: int| 0 <= i < a.len() ==> ascii_lowered(a[i]) == ascii_lowered(b[i])
}

/// The number the decimal digits spell.
pub open spec fn digits_value(digits: Seq<char>) -> nat
    decreases digits.len(),
{
    if digits.len() == 0 {
        0
    } else {
        digits_value(digits.drop_last()) * 10 + ((digits.last() as u32) - ('0' as u32)) as nat
    }
}

/// Whether every character is a decimal digit.
pub open spec fn all_digits(text: Seq<char>) -> bool {
    forall|i: int| 0 <= i < text.len() ==> is_ascii_digit(#[trigger] text[i])
}

/// The text after a leading `+`, if it has one.
pub open spec fn unsigned_part(text: Seq<char>) -> Seq<char> {
    if text.len() > 0 && text[0] == '+' {
        text.drop_first()
    } else {
        text
    }
}

/// The `usize` the text spells: an optional `+`, then one or more decimal
/// digits, for a number that fits.
pub open spec fn parsed_size(text: Seq<char>) -> Option<usize> {
    let digits = unsigned_part(text);
    if digits.len() > 0 && all_digits(digits) && digits_value(digits) <= usize::MAX {
        Some(digits_value(digits) as usize)
    } else {
        None
    }
}

/// What a header line does while the headers of a message are read.
#[derive(Debug, Clone, Copy, PartialEq, Eq, Structural)]
pub enum HeaderStep {
    /// A blank line: the headers are over, the body follows.
    End,
    /// Another header; the body length known after it.
    Next(Option<usize>),
}

/// The step a header line takes, given the body length known before it: a
/// `Content-Length` header (named in any ASCII case) sets the length to the
/// number its value spells, or to none when the value spells no number;
/// other headers leave it.
pub open spec fn header_step(content_length: Option<usize>, line: Seq<char>) -> HeaderStep {
    let header = without_line_breaks(line);
    if header.len() == 0 {
        HeaderStep::End
    } else {
        match first_colon(header) {
            Some(colon) => if same_ignoring_ascii_case(header.take(colon), "Content-Length"@) {
                HeaderStep::Next(parsed_size(trimmed(header.skip(colon + 1))))
            } else {
                HeaderStep::Next(content_length)
            },
            None => HeaderStep::Next(content_length),
        }
    }
}

/// The decimal digits of `n`.
pub open spec fn decimal(n: nat) -> Seq<char>
    decreases n,
{
    if n < 10 {
        seq![(('0' as u32) + n) as char]
    } else {
        decimal(n / 10).push((('0' as u32) + (n % 10)) as char)
    }
}

/// Whether `c` is white space in Unicode.
pub fn is_white_space(c: char) -> (white: bool)
    ensures
        white == is_white(c),
{
    ('\u{9}' <= c && c <= '\u{d}') || c == ' ' || c == '\u{85}' || c == '\u{a0}' || c == '\u{1680}' || (
    '\u{2000}' <= c && c <= '\u{200a}') || c == '\u{2028}' || c == '\u{2029}' || c == '\u{202f}' || c
        == '\u{205f}' || c == '\u{3000}'
}

/// The characters of the text.
pub(crate) fn chars_of(text: &str) -> (chars: Vec<char>)
    ensures
        chars@ == text@,
{
    let mut chars: Vec<char> = Vec::new();
    let mut iter = text.chars();
    let ghost mut k: int = 0;
    loop
        invariant
            0 <= k <= text@.len(),
            iter.remaining() == text@.skip(k),
            chars@ == text@.take(k),
        ensures
            chars@ == text@,
        decreases text@.len() - k,
    {
        match iter.next() {
            Some(c) => {
                proof {
                    assert(text@.skip(k).len() > 0);
                    assert(c == text@[k]);
                    assert(text@.skip(k).drop_first() =~= text@.skip(k + 1));
                    assert(text@.take(k + 1) =~= text@.take(k).push(c));
                }
                chars.push(c);
                proof {
                    k = k + 1;
                }
            },
            None => {
                proof {
                    assert(text@.take(k) =~= text@);
                }
                break;
            },
        }
    }
    chars
}

} // verus!

verus! {

pub proof fn lemma_first_colon(text: Seq<char>)
    ensures
        match first_colon(text) {
            Some(i) => 0 <= i < text.len() && text[i] == ':' && forall|j: int| 0 <= j < i ==> text[j] != ':',
            None => forall|j: int| 0 <= j < text.len() ==> text[j] != ':',
        },
    decreases text.len(),
{
    if text.len() > 0 {
        let prefix = text.drop_last();
        lemma_first_colon(prefix);
        assert forall|j: int| 0 <= j < prefix.len() implies prefix[j] == text[j] by {}
        match first_colon(prefix) {
            Some(i) => {
                assert(first_colon(text) == Some(i));
            },
            None => {
                if text.last() == ':' {
                    assert(first_colon(text) == Some(text.len() - 1));
                } else {
                    assert(first_colon(text) is None);
                    assert forall|j: int| 0 <= j < text.len() implies text[j] != ':' by {
                        if j < prefix.len() {
                            assert(prefix[j] == text[j]);
                        }
                    }
                }
            },
        }
    }
}

pub proof fn lemma_digits_grow(digits: Seq<char>, k: int)
    requires
        0 <= k <= digits.len(),
    ensures
        digits_value(digits.take(k)) <= digits_value(digits),
    decreases digits.len() - k,
{
    if k < digits.len() {
        lemma_digits_grow(digits, k + 1);
        assert(digits.take(k + 1).drop_last() =~= digits.take(k));
    } else {
        assert(digits.take(k) =~= digits);
    }
}

/// The lowercase form of an uppercase ASCII letter; other characters stay.
fn lowered(c: char) -> (low: char)
    ensures
        low == ascii_lowered(c),
{
    if 'A' <= c && c <= 'Z' {
        ((c as u8) + 32) as char
    } else {
        c
    }
}

/// Whether `chars[from..to]` is `Content-Length`, but for ASCII case.
fn names_content_length(chars: &Vec<char>, from: usize, to: usize) -> (found: bool)
    requires
        from <= to <= chars@.len(),
    ensures
        found == same_ignoring_ascii_case(chars@.subrange(from as int, to as int), "Content-Length"@),
{
    let expected = "Content-Length";
    proof {
        reveal_strlit("Content-Length");
    }
    let n = expected.unicode_len();
    if to - from != n {
        return false;
    }
    let ghost name = chars@.subrange(from as int, to as int);
    let mut i: usize = 0;
    while i < n
        invariant
            n == expected@.len(),
            to - from == n,
            from <= to <= chars@.len(),
            name == chars@.subrange(from as int, to as int),
            expected@ == "Content-Length"@,
            i <= n,
            forall|j: int| 0 <= j < i ==> ascii_lowered(#[trigger] name[j]) == ascii_lowered(expected@[j]),
        decreases n - i,
    {
        if lowered(chars[from + i]) != lowered(expected.get_char(i)) {
            return false;
        }
        i = i + 1;
    }
    true
}

/// The `usize` that `chars[from..to]` spells, if it spells one.
fn parse_size(chars: &Vec<char>, from: usize, to: usize) -> (size: Option<usize>)
    requires
        from <= to <= chars@.len(),
    ensures
        size == parsed_size(chars@.subrange(from as int, to as int)),
{
    let ghost text = chars@.subrange(from as int, to as int);
    let mut start = from;
    if start < to && chars[start] == '+' {
        start = start + 1;
    }
    let ghost digits = chars@.subrange(start as int, to as int);
    proof {
        if text.len() > 0 && text[0] == '+' {
            assert(digits =~= text.drop_first());
        } else {
            assert(digits =~= text);
        }
    }
    if start == to {
        return None;
    }
    let mut value: usize = 0;
    let mut i = start;
    while i < to
        invariant
            from <= start <= i <= to <= chars@.len(),
            digits == chars@.subrange(start as int, to as int),
            text == chars@.subrange(from as int, to as int),
            digits == unsigned_part(text),
            digits.len() > 0,
            value == digits_value(digits.take(i - start)),
            forall|j: int| 0 <= j < i - start ==> is_ascii_digit(#[trigger] digits[j]),
        decreases to - i,
    {
        let c = chars[i];
        proof {
            assert(digits[i - start] == c);
            assert(digits.take(i - start + 1).drop_last() =~= digits.take(i - start));
            assert(digits.take(i - start + 1).last() == c);
        }
        if !('0' <= c && c <= '9') {
            proof {
                let k = i - start;
                assert(0 <= k < digits.len());
                assert(!is_ascii_digit(digits[k]));
                assert(!all_digits(digits));
            }
            return None;
        }
        let digit = ((c as u32) - ('0' as u32)) as usize;
        match value.checked_mul(10) {
            Some(tens) => match tens.checked_add(digit) {
                Some(next) => {
                    value = next;
                },
                None => {
                    proof {
                        lemma_digits_grow(digits, i - start + 1);
                    }
                    return None;
                },
            },
            None => {
                proof {
                    lemma_digits_grow(digits, i - start + 1);
                }
                return None;
            },
        }
        i = i + 1;
    }
    proof {
        assert(digits.take(i - start) =~= digits);
    }
    Some(value)
}

/// The step a header line takes while the headers of a message are read,
/// given the body length known before it.
pub fn read_header(content_length: Option<usize>, line: &str) -> (step: HeaderStep)
    ensures
        step == header_step(content_length, line@),
{
    let chars = chars_of(line);
    let mut end = chars.len();
    assert(chars@.take(end as int) =~= chars@);
    while end > 0 && (chars[end - 1] == '\r' || chars[end - 1] == '\n')
        invariant
            end <= chars@.len(),
            without_line_breaks(chars@) == without_line_breaks(chars@.take(end as int)),
        decreases end,
    {
        proof {
            assert(chars@.take(end as int).drop_last() =~= chars@.take(end - 1));
        }
        end = end - 1;
    }
    let ghost header = chars@.take(end as int);
    assert(without_line_breaks(chars@) == header);
    if end == 0 {
        return HeaderStep::End;
    }
    let mut colon: usize = 0;
    while colon < end && chars[colon] != ':'
        invariant
            colon <= end <= chars@.len(),
            header == chars@.take(end as int),
            forall|j: int| 0 <= j < colon ==> header[j] != ':',
        decreases end - colon,
    {
        colon = colon + 1;
    }
    proof {
        lemma_first_colon(header);
        match first_colon(header) {
            Some(i) => {
                if i < colon {
                    assert(header[i] != ':');
                }
                if colon < i {
                    assert(header[colon as int] == ':');
                }
            },
            None => {
                if colon < end {
                    assert(header[colon as int] == ':');
                }
            },
        }
    }
    if colon == end {
        return HeaderStep::Next(content_length);
    }
    assert(first_colon(header) == Some(colon as int));
    assert(header.take(colon as int) =~= chars@.subrange(0, colon as int));
    if !names_content_length(&chars, 0, colon) {
        return HeaderStep::Next(content_length);
    }
    let ghost value = header.skip(colon + 1);
    assert(value =~= chars@.subrange(colon + 1, end as int));
    let mut start = colon + 1;
    while start < end && is_white_space(chars[start])
        invariant
            colon < start <= end <= chars@.len(),
            value == chars@.subrange(colon + 1, end as int),
            trimmed_start(value) == trimmed_start(chars@.subrange(start as int, end as int)),
        decreases end - start,
    {
        proof {
            assert(chars@.subrange(start as int, end as int).drop_first() =~= chars@.subrange(start + 1, end as int));
        }
        start = start + 1;
    }
    assert(trimmed_start(value) == chars@.subrange(start as int, end as int));
    let mut stop = end;
    while stop > start && is_white_space(chars[stop - 1])
        invariant
            start <= stop <= end <= chars@.len(),
            trimmed_start(value) == chars@.subrange(start as int, end as int),
            trimmed(value) == trimmed_end(chars@.subrange(start as int, stop as int)),
        decreases stop,
    {
        proof {
            assert(chars@.subrange(start as int, stop as int).drop_last() =~= chars@.subrange(start as int, stop - 1));
        }
        stop = stop - 1;
    }
    assert(trimmed(value) == chars@.subrange(start as int, stop as int));
    HeaderStep::Next(parse_size(&chars, start, stop))
}

} // verus!

verus! {

/// Why a message could not be framed.
#[derive(Debug, Clone, Copy, PartialEq, Eq, Structural)]
pub enum FramingError {
    /// The headers ended without a `Content-Length`.
    MissingContentLength,
}

/// The length of the body that follows the headers, once they are read.
pub fn body_length(content_length: Option<usize>) -> (length: Result<usize, FramingError>)
    ensures
        length == match content_length {
            Some(n) => Ok::<usize, FramingError>(n),
            None => Err(FramingError::MissingContentLength),
        },
{
    match content_length {
        Some(n) => Ok(n),
        None => Err(FramingError::MissingContentLength),
    }
}

/// Appends the decimal digits of `n`.
fn push_decimal(out: &mut String, n: usize)
    ensures
        final(out)@ == old(out)@ + decimal(n as nat),
    decreases n,
{
    if n >= 10 {
        push_decimal(out, n / 10);
    }
    let digit = ((n % 10) as u8 + 48) as char;
    proof {
        assert(digit == (('0' as u32) + ((n as nat) % 10)) as char);
    }
    push_char(out, digit);
    proof {
        if n >= 10 {
            assert(decimal(n as nat) == decimal((n / 10) as nat).push(digit));
        } else {
            assert(decimal(n as nat) == seq![digit]);
        }
    }
}

/// The headers written before a body of `length` bytes.
pub fn content_length_header(length: usize) -> (header: String)
    ensures
        header@ == "Content-Length: "@ + decimal(length as nat) + "\r\n\r\n"@,
{
    let mut header = String::from_str("Content-Length: ");
    push_decimal(&mut header, length);
    header.append("\r\n\r\n");
    header
}

pub proof fn lemma_decimal(n: nat)
    ensures
        decimal(n).len() > 0,
        all_digits(decimal(n)),
        digits_value(decimal(n)) == n,
    decreases n,
{
    if n >= 10 {
        lemma_decimal(n / 10);
        let d = decimal(n);
        assert(d.drop_last() == decimal(n / 10));
        assert forall|i: int| 0 <= i < d.len() implies is_ascii_digit(#[trigger] d[i]) by {
            if i < d.len() - 1 {
                assert(d[i] == decimal(n / 10)[i]);
            }
        }
        assert(d.last() == (('0' as u32) + (n % 10)) as char);
        assert((d.last() as u32) == 48 + n % 10);
        assert((n / 10) * 10 + n % 10 == n) by (nonlinear_arith);
    } else {
        let d = decimal(n);
        assert(d.drop_last() =~= Seq::<char>::empty());
        assert(digits_value(d.drop_last()) == 0);
        assert((d.last() as u32) == 48 + n);
    }
}

} // verus!

verus! {

/// The header written for a body of `length` bytes reads back as that
/// length, whatever was known before it, and the blank line written after
/// it ends the headers.
pub proof fn law_written_header_reads_back(length: usize, known: Option<usize>)
    ensures
        header_step(known, "Content-Length: "@ + decimal(length as nat) + "\r\n"@) == HeaderStep::Next(Some(length)),
        header_step(known, "\r\n"@) == HeaderStep::End,
{
    reveal_strlit("Content-Length: ");
    reveal_strlit("Content-Length");
    reveal_strlit("\r\n");
    let prefix = "Content-Length: "@;
    let digits = decimal(length as nat);
    lemma_decimal(length as nat);
    let header = prefix + digits;
    let line = header + "\r\n"@;
    assert(line.drop_last() =~= header + seq!['\r']);
    assert((header + seq!['\r']).drop_last() =~= header);
    assert(header.last() == digits.last());
    assert(is_ascii_digit(digits[digits.len() - 1]));
    assert(without_line_breaks(header + seq!['\r']) == without_line_breaks(header));
    assert(without_line_breaks(header) == header);
    assert(without_line_breaks(line) == header);
    lemma_first_colon(header);
    assert(header[14] == ':');
    match first_colon(header) {
        Some(i) => {
            if i < 14 {
                assert(header[i] == prefix[i]);
            }
            assert(i == 14);
        },
        None => {
            assert(header[14] == ':');
        },
    }
    assert(header.take(14) =~= "Content-Length"@);
    let value = header.skip(15);
    assert(value =~= seq![' '] + digits);
    assert(value.drop_first() =~= digits);
    assert(is_white(value[0]));
    assert(is_ascii_digit(digits[0]));
    assert(trimmed_start(digits) == digits);
    assert(trimmed_start(value) == digits);
    assert(trimmed_end(digits) == digits);
    assert(unsigned_part(digits) == digits);
    assert(parsed_size(trimmed(value)) == Some(length));
    let blank = "\r\n"@;
    assert(blank.drop_last() =~= seq!['\r']);
    assert(seq!['\r'].drop_last() =~= Seq::<char>::empty());
    assert(blank.last() == '\n');
    assert(without_line_breaks(blank) == without_line_breaks(seq!['\r']));
    assert(seq!['\r'].last() == '\r');
    assert(without_line_breaks(seq!['\r']) == without_line_breaks(Seq::<char>::empty()));
    assert(without_line_breaks(blank).len() == 0);
}

} // verus!
