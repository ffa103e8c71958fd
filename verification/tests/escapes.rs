use emit::escapes::{equals_target, literal_runtime_bytes, runtime_bytes, Literal};

#[test]
fn plain_and_raw_text_keeps_its_bytes() {
    assert_eq!(runtime_bytes("a%db", false), Some(b"a%db".to_vec()));
    assert_eq!(runtime_bytes("a\\nb", true), Some(b"a\\nb".to_vec()));
    assert_eq!(runtime_bytes("é", false), Some("é".as_bytes().to_vec()));
}

#[test]
fn one_letter_escapes_are_read() {
    assert_eq!(
        runtime_bytes("\\a\\b\\f\\n\\r\\t\\v\\\\\\\"\\'", false),
        Some(vec![7, 8, 12, 10, 13, 9, 11, 92, 34, 39])
    );
    assert_eq!(runtime_bytes("x\\q", false), None);
    assert_eq!(runtime_bytes("x\\", false), None);
}

#[test]
fn numeric_escapes_are_read() {
    assert_eq!(runtime_bytes("\\x41\\x4a", false), Some(b"AJ".to_vec()));
    assert_eq!(runtime_bytes("\\x4", false), None);
    assert_eq!(runtime_bytes("\\101\\0\\7x", false), Some(vec![65, 0, 7, b'x']));
    assert_eq!(runtime_bytes("\\1234", false), Some(vec![83, b'4']));
    assert_eq!(runtime_bytes("\\777", false), None);
    assert_eq!(runtime_bytes("\\u{41}\\u{1F600}", false), Some("A😀".as_bytes().to_vec()));
    assert_eq!(runtime_bytes("\\u{}", false), None);
    assert_eq!(runtime_bytes("\\u{1234567}", false), None);
    assert_eq!(runtime_bytes("\\u{D800}", false), None);
    assert_eq!(runtime_bytes("\\u{41", false), None);
    assert_eq!(runtime_bytes("\\U00000041\\U0001f600", false), Some("A😀".as_bytes().to_vec()));
    assert_eq!(runtime_bytes("\\U0011FFFF", false), None);
    assert_eq!(runtime_bytes("\\U0041", false), None);
}

fn s(value: &str, raw: bool) -> Literal {
    Literal::String { value: value.to_string(), raw }
}

fn equal(a: &Literal, b: &Literal) -> bool {
    let bytes = literal_runtime_bytes(b);
    equals_target(a, b, bytes.as_ref())
}

#[test]
fn raw_and_escaped_with_same_runtime_value_are_equal() {
    assert!(equal(&s("a\\nb", true), &s("a\\\\nb", false)));
}

#[test]
fn unicode_escape_equals_literal_char() {
    assert!(equal(&s("A", false), &s("\\u{0041}", false)));
}

#[test]
fn hex_escape_equals_literal_char() {
    assert!(equal(&s("A", false), &s("\\x41", false)));
}

#[test]
fn octal_escape_equals_literal_char() {
    assert!(equal(&s("A", false), &s("\\101", false)));
}

#[test]
fn capital_unicode_escape_equals_literal_char() {
    assert!(equal(&s("A", false), &s("\\U00000041", false)));
    assert!(!equal(&s("\\\\U00000041", false), &s("\\U00000041", false)));
}

#[test]
fn newline_spellings_are_equal() {
    assert!(equal(&s("\\n", false), &s("\\u{000A}", false)));
    assert!(equal(&s("\\n", false), &s("\\x0A", false)));
    assert!(equal(&s("\\n", false), &s("\\012", false)));
}

#[test]
fn distinct_strings_are_not_equal() {
    assert!(!equal(&s("a", false), &s("b", false)));
    assert!(!equal(&s("\\n", false), &s("n", false)));
}

#[test]
fn unicode_escape_for_multibyte_codepoint() {
    assert!(equal(&s("\u{1F600}", false), &s("\\u{1F600}", false)));
}

#[test]
fn identical_source_short_circuits() {
    let a = s("hello", false);
    let b = s("hello", false);
    assert!(equals_target(&a, &b, None));
}

#[test]
fn other_literals_match_by_their_text() {
    let one = Literal::Other { text: "1".to_string() };
    assert!(equals_target(&one, &Literal::Other { text: "1".to_string() }, None));
    assert!(!equals_target(&one, &Literal::Other { text: "2".to_string() }, None));
    assert!(!equals_target(&one, &s("1", false), Some(&b"1".to_vec())));
    assert_eq!(literal_runtime_bytes(&one), None);
}
