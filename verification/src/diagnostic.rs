//! Turning a compiler diagnostic into what an editor shows.
//!
//! The editor gets the range of the diagnostic's first labelled span, its
//! severity, and one line of text: the label (or, without one, the message)
//! with a lowercase ASCII first letter raised, then the help and the note,
//! each after a middle dot.

use crate::text::push_char;
use crate::position::{offset_in_reach, offset_position, LineIndex, Position, Range};
use vstd::prelude::*;

verus! {

/// How serious a diagnostic is, in the editor's terms.
#[derive(Debug, Clone, Copy, PartialEq, Eq, Structural)]
pub enum Severity {
    Error,
    Warning,
    Information,
}

/// What the conversion reads of a compiler diagnostic.
#[derive(Debug, Clone, PartialEq, Eq)]
pub struct CompilerDiagnostic {
    pub is_error: bool,
    pub is_info: bool,
    /// Byte offset and length of the first labelled span.
    pub first_label_span: Option<(usize, usize)>,
    /// The text of the first label.
    pub label: Option<String>,
    pub message: String,
    pub help: Option<String>,
    pub note: Option<String>,
    pub code: Option<String>,
}

/// A diagnostic as the editor shows it.
#[derive(Debug, Clone, PartialEq, Eq)]
pub struct EditorDiagnostic {
    pub range: Range,
    pub severity: Severity,
    pub message: String,
    pub source: String,
    pub code: Option<String>,
}

/// The severity the editor shows: errors as errors, advisories as
/// information, everything else as a warning.
pub open spec fn severity_of(is_error: bool, is_info: bool) -> Severity {
    if is_error {
        Severity::Error
    } else if is_info {
        Severity::Information
    } else {
        Severity::Warning
    }
}

/// The uppercase form of a lowercase ASCII letter.
pub open spec fn ascii_upper(c: char) -> char {
    ((c as u32) - 32) as char
}

pub open spec fn is_ascii_lower(c: char) -> bool {
    'a' <= c && c <= 'z'
}

/// The text with a lowercase ASCII first letter raised to uppercase.
pub open spec fn capitalized(text: Seq<char>) -> Seq<char> {
    if text.len() > 0 && is_ascii_lower(text[0]) {
        text.update(0, ascii_upper(text[0]))
    } else {
        text
    }
}

/// The text `then` adds after a middle dot, if there is any.
pub open spec fn followed_by(text: Seq<char>, then: Option<Seq<char>>) -> Seq<char> {
    match then {
        Some(more) => text + " · "@ + more,
        None => text,
    }
}

/// The one line the editor shows for a diagnostic.
pub open spec fn diagnostic_text(
    label: Option<Seq<char>>,
    message: Seq<char>,
    help: Option<Seq<char>>,
    note: Option<Seq<char>>,
) -> Seq<char> {
    let head = match label {
        Some(text) => text,
        None => message,
    };
    followed_by(followed_by(capitalized(head), help), note)
}

pub open spec fn opt_view(text: Option<String>) -> Option<Seq<char>> {
    match text {
        Some(s) => Some(s@),
        None => None,
    }
}

/// The range the diagnostic covers: that of its first labelled span, or
/// the start of the document without one.
pub open spec fn diagnostic_range(text: Seq<char>, span: Option<(usize, usize)>) -> Range {
    match span {
        Some((offset, length)) => Range {
            start: offset_position(text, (offset as u32) as int),
            end: offset_position(text, ((offset + length) as u32) as int),
        },
        None => Range { start: Position { line: 0, character: 0 }, end: Position { line: 0, character: 0 } },
    }
}

/// Whether the ends of the span can be placed in the text.
pub open spec fn span_in_reach(text: Seq<char>, span: Option<(usize, usize)>) -> bool {
    match span {
        Some((offset, length)) => {
            &&& offset + length <= usize::MAX
            &&& offset_in_reach(text, (offset as u32) as int)
            &&& offset_in_reach(text, ((offset + length) as u32) as int)
        },
        None => true,
    }
}

/// The uppercase form of a lowercase ASCII letter.
fn raised(c: char) -> (upper: char)
    requires
        is_ascii_lower(c),
    ensures
        upper == ascii_upper(c),
{
    ((c as u8) - 32) as char
}

/// The text with a lowercase ASCII first letter raised to uppercase.
pub fn capitalize(text: &str) -> (out: String)
    ensures
        out@ == capitalized(text@),
{
    let n = text.unicode_len();
    if n > 0 {
        let first = text.get_char(0);
        if 'a' <= first && first <= 'z' {
            let mut out = String::new();
            push_char(&mut out, raised(first));
            out.append(text.substring_char(1, n));
            proof {
                assert(seq![ascii_upper(first)] + text@.subrange(1, n as int) =~= text@.update(0, ascii_upper(first)));
            }
            return out;
        }
    }
    String::from_str(text)
}

/// The one line the editor shows for a diagnostic.
pub fn diagnostic_message(
    label: Option<&str>,
    message: &str,
    help: Option<&str>,
    note: Option<&str>,
) -> (text: String)
    ensures
        text@ == diagnostic_text(
            match label {
                Some(l) => Some(l@),
                None => None,
            },
            message@,
            match help {
                Some(h) => Some(h@),
                None => None,
            },
            match note {
                Some(n) => Some(n@),
                None => None,
            },
        ),
{
    let head = match label {
        Some(text) => text,
        None => message,
    };
    let mut text = capitalize(head);
    if let Some(help) = help {
        text.append(" · ");
        text.append(help);
    }
    if let Some(note) = note {
        text.append(" · ");
        text.append(note);
    }
    text
}

fn copy_text(text: &Option<String>) -> (copy: Option<String>)
    ensures
        opt_view(copy) == opt_view(*text),
{
    match text {
        Some(s) => Some(s.clone()),
        None => None,
    }
}

fn as_text(text: &Option<String>) -> (out: Option<&str>)
    ensures
        match out {
            Some(s) => opt_view(*text) == Some(s@),
            None => opt_view(*text) is None,
        },
{
    match text {
        Some(s) => Some(s.as_str()),
        None => None,
    }
}

/// The editor's form of a compiler diagnostic, placed in `index`'s text.
pub fn convert_diagnostic(diagnostic: &CompilerDiagnostic, index: &LineIndex) -> (converted: EditorDiagnostic)
    requires
        span_in_reach(index@, diagnostic.first_label_span),
    ensures
        converted.range == diagnostic_range(index@, diagnostic.first_label_span),
        converted.severity == severity_of(diagnostic.is_error, diagnostic.is_info),
        converted.message@ == diagnostic_text(
            opt_view(diagnostic.label),
            diagnostic.message@,
            opt_view(diagnostic.help),
            opt_view(diagnostic.note),
        ),
        converted.source@ == "lisette"@,
        opt_view(converted.code) == opt_view(diagnostic.code),
{
    let range = match diagnostic.first_label_span {
        Some((offset, length)) => index.offset_len_to_range(offset, length),
        None => Range { start: Position { line: 0, character: 0 }, end: Position { line: 0, character: 0 } },
    };
    let severity = if diagnostic.is_error {
        Severity::Error
    } else if diagnostic.is_info {
        Severity::Information
    } else {
        Severity::Warning
    };
    let message = diagnostic_message(
        as_text(&diagnostic.label),
        diagnostic.message.as_str(),
        as_text(&diagnostic.help),
        as_text(&diagnostic.note),
    );
    EditorDiagnostic {
        range,
        severity,
        message,
        source: String::from_str("lisette"),
        code: copy_text(&diagnostic.code),
    }
}

} // verus!
