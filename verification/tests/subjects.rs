use emit::bodies::{define, discard, LoweredStatement};
use emit::patterns::ResolvedSubject;
use emit::values::GoExpression;

fn call() -> GoExpression {
    GoExpression::call(GoExpression::name("load".to_string()), Vec::new())
}

#[test]
fn existing_subject_is_read_through_its_variable_and_declares_nothing() {
    let subject = ResolvedSubject::Existing { var: "x".to_string() };
    assert_eq!(subject.var(), "x");
    let mut statements: Vec<LoweredStatement> = Vec::new();
    subject.push_declaration(&mut statements, true);
    assert!(statements.is_empty());
}

#[test]
fn composite_subject_is_defined_when_read_and_discarded_otherwise() {
    let subject = ResolvedSubject::Composite { var: "subject".to_string(), expression: call() };
    assert_eq!(subject.var(), "subject");
    let mut statements = Vec::new();
    subject.push_declaration(&mut statements, true);
    assert_eq!(statements, vec![define("subject".to_string(), call())]);

    let subject = ResolvedSubject::Composite { var: "subject".to_string(), expression: call() };
    let mut statements = Vec::new();
    subject.push_declaration(&mut statements, false);
    assert_eq!(statements, vec![discard(call())]);
}
