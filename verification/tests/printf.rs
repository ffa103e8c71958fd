use emit::printf::{format_operands, printf_target, verb_count_mismatch, PrintfOperand};

#[test]
fn verbs_and_stars_take_arguments() {
    assert_eq!(
        format_operands(b"%d items in %s"),
        Some(vec![PrintfOperand::Verb('d'), PrintfOperand::Verb('s')])
    );
    assert_eq!(format_operands(b"100%%"), Some(vec![]));
    assert_eq!(format_operands(b"%*d"), Some(vec![PrintfOperand::StarWidth, PrintfOperand::Verb('d')]));
    assert_eq!(
        format_operands(b"%-08.*f|%+ #5.3x"),
        Some(vec![PrintfOperand::StarPrecision, PrintfOperand::Verb('f'), PrintfOperand::Verb('x')])
    );
    assert_eq!(format_operands(b"%*.*%"), Some(vec![PrintfOperand::StarWidth, PrintfOperand::StarPrecision]));
    assert_eq!(format_operands(b"plain"), Some(vec![]));
}

#[test]
fn argument_indexes_and_cut_directives_have_no_answer() {
    assert_eq!(format_operands(b"%[1]d"), None);
    assert_eq!(format_operands(b"%.[2]d"), None);
    assert_eq!(format_operands(b"%5.2[1]d"), None);
    assert_eq!(format_operands(b"trailing %"), None);
    assert_eq!(format_operands(b"%-"), None);
}

#[test]
fn non_ascii_verbs_are_read_as_characters() {
    assert_eq!(format_operands("%é".as_bytes()), Some(vec![PrintfOperand::Verb('é')]));
    assert_eq!(format_operands("%😀x".as_bytes()), Some(vec![PrintfOperand::Verb('😀')]));
    assert_eq!(format_operands(b"%\xffd"), Some(vec![PrintfOperand::Verb('\u{fffd}')]));
}

#[test]
fn printf_targets_and_argument_counts() {
    assert_eq!(printf_target("go:fmt", "Fprintf"), Some(1));
    assert_eq!(printf_target("go:fmt", "Sprintf"), Some(0));
    assert_eq!(printf_target("go:log", "Panicf"), Some(0));
    assert_eq!(printf_target("go:log", "Sprintf"), None);
    assert_eq!(printf_target("go:os", "Printf"), None);
    assert_eq!(verb_count_mismatch(2, 3, 0), None);
    assert_eq!(verb_count_mismatch(1, 4, 1), Some(2));
}
