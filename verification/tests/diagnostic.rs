use emit::diagnostic::{capitalize, convert_diagnostic, diagnostic_message, CompilerDiagnostic, Severity};
use emit::position::{LineIndex, Position, Range};

fn diagnostic(is_error: bool, is_info: bool, message: &str) -> CompilerDiagnostic {
    CompilerDiagnostic {
        is_error,
        is_info,
        first_label_span: None,
        label: None,
        message: message.to_string(),
        help: None,
        note: None,
        code: None,
    }
}

fn at(line: u32, character: u32) -> Position {
    Position { line, character }
}

#[test]
fn info_maps_to_lsp_information() {
    let index = LineIndex::new("");
    let converted = convert_diagnostic(&diagnostic(false, true, "advisory"), &index);
    assert_eq!(converted.severity, Severity::Information);
}

#[test]
fn warning_maps_to_lsp_warning() {
    let index = LineIndex::new("");
    let converted = convert_diagnostic(&diagnostic(false, false, "w"), &index);
    assert_eq!(converted.severity, Severity::Warning);
}

#[test]
fn prose_label_is_capitalized() {
    let mut warning = diagnostic(false, false, "Unused function");
    warning.first_label_span = Some((0, 1));
    warning.label = Some("never called".to_string());
    warning.help = Some("Call or remove this function".to_string());
    let converted = convert_diagnostic(&warning, &LineIndex::new("x"));
    assert_eq!(converted.message, "Never called · Call or remove this function");
}

#[test]
fn identifier_led_label_is_left_untouched() {
    let mut error = diagnostic(true, false, "Name not found");
    error.first_label_span = Some((0, 1));
    error.label = Some("`missing` not found in package `root`".to_string());
    let converted = convert_diagnostic(&error, &LineIndex::new("x"));
    assert_eq!(converted.message, "`missing` not found in package `root`");
    assert_eq!(converted.severity, Severity::Error);
}

#[test]
fn conversion_places_the_span_and_keeps_the_code() {
    let mut error = diagnostic(true, true, "mismatched types");
    error.first_label_span = Some((4, 3));
    error.note = Some("expected int".to_string());
    error.code = Some("E0308".to_string());
    let converted = convert_diagnostic(&error, &LineIndex::new("ab\ncdefg\n"));
    assert_eq!(converted.range, Range { start: at(1, 1), end: at(1, 4) });
    assert_eq!(converted.severity, Severity::Error);
    assert_eq!(converted.message, "Mismatched types · expected int");
    assert_eq!(converted.source, "lisette");
    assert_eq!(converted.code.as_deref(), Some("E0308"));
    let plain = convert_diagnostic(&diagnostic(false, false, "x"), &LineIndex::new("ab"));
    assert_eq!(plain.range, Range { start: at(0, 0), end: at(0, 0) });
    assert_eq!(plain.code, None);
}

#[test]
fn only_a_lowercase_ascii_letter_is_raised() {
    assert_eq!(capitalize("abc"), "Abc");
    assert_eq!(capitalize("Abc"), "Abc");
    assert_eq!(capitalize("élan"), "élan");
    assert_eq!(capitalize(""), "");
    assert_eq!(diagnostic_message(None, "zero", Some("h"), Some("n")), "Zero · h · n");
}
