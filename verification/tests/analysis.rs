use emit::analysis::{order_diagnostics_by_severity, Analysis};
use emit::diagnostic::CompilerDiagnostic;

fn diagnostic(is_error: bool, is_info: bool, message: &str) -> CompilerDiagnostic {
    CompilerDiagnostic {
        is_error,
        is_info,
        first_label_span: None,
        label: None,
        message: message.to_string(),
        help: None,
        note: None,
        code: None,
    }
}

fn messages(diagnostics: &[CompilerDiagnostic]) -> Vec<&str> {
    diagnostics.iter().map(|d| d.message.as_str()).collect()
}

#[test]
fn analysis_classifies_diagnostics_by_severity() {
    let diagnostics = order_diagnostics_by_severity(vec![
        diagnostic(false, false, "warning"),
        diagnostic(true, false, "error"),
        diagnostic(false, true, "info"),
    ]);
    assert_eq!(messages(&diagnostics), vec!["error", "warning", "info"]);
}

#[test]
fn errors_stay_ahead_of_lints() {
    let mut analysis = Analysis::from_diagnostics(vec![
        diagnostic(false, false, "w1"),
        diagnostic(true, false, "e1"),
        diagnostic(false, false, "w2"),
        diagnostic(true, false, "e2"),
    ]);
    assert_eq!(messages(analysis.diagnostics()), vec!["e1", "e2", "w1", "w2"]);
    assert_eq!(messages(analysis.errors()), vec!["e1", "e2"]);
    assert_eq!(messages(analysis.lints()), vec!["w1", "w2"]);
    assert!(analysis.failed());
    analysis.push_error(diagnostic(true, false, "e3"));
    assert_eq!(messages(analysis.diagnostics()), vec!["e1", "e2", "e3", "w1", "w2"]);
    let taken = analysis.take_diagnostics();
    assert_eq!(taken.len(), 5);
    assert!(analysis.diagnostics().is_empty());
    assert!(!analysis.failed());
}

#[test]
fn an_analysis_with_only_lints_has_not_failed() {
    let analysis = Analysis::from_diagnostics(vec![diagnostic(false, true, "i")]);
    assert!(!analysis.failed());
    assert!(analysis.errors().is_empty());
    assert_eq!(messages(analysis.lints()), vec!["i"]);
}
