use emit::bodies::{assign, define, ElseArm, IfPlan, LoweredBlock, LoweredStatement};
use emit::patterns::{
    assemble_if_else_chain, is_field_path, loop_break, pair_if, unit_value, ArmBinding, PairCondition,
};
use emit::placement::{
    collapse_declared_temp, infers_declared_type, join_boolean_branches, rebind_trailing_temp,
    simple_assign, single_simple_assign_value,
};
use emit::bodies::{Definition, LoopId, LoopTransfer};
use emit::values::{ConstantKind, GoExpression, ValuePlan};

fn name(value: &str) -> GoExpression {
    GoExpression::name(value.to_string())
}

fn literal(value: &str) -> GoExpression {
    GoExpression::literal(value.to_string())
}

fn var(declared: &str, go_type: &str) -> LoweredStatement {
    LoweredStatement::VarDecl { name: declared.to_string(), go_type: go_type.to_string(), value: None }
}

fn block(statements: Vec<LoweredStatement>) -> LoweredBlock {
    LoweredBlock { statements }
}

#[test]
fn simple_assignment_captures_nothing() {
    let statement = simple_assign(name("x"), ValuePlan::literal("1".to_string()));
    match statement {
        LoweredStatement::Assign(emit::bodies::AssignForm::Simple { target_capture, target, value }) => {
            assert!(target_capture.is_empty());
            assert_eq!(target, name("x"));
            assert_eq!(value, ValuePlan::literal("1".to_string()));
        },
        _ => panic!("expected a plain assignment"),
    }
}

#[test]
fn trailing_temp_takes_the_final_name() {
    let mut statements = vec![define("tmp_1".to_string(), literal("1"))];
    assert!(rebind_trailing_temp(&mut statements, "total", "tmp_1"));
    assert_eq!(statements, vec![define("total".to_string(), literal("1"))]);
    assert!(!rebind_trailing_temp(&mut statements, "other", "tmp_1"));
    assert_eq!(statements, vec![define("total".to_string(), literal("1"))]);
    let mut empty: Vec<LoweredStatement> = Vec::new();
    assert!(!rebind_trailing_temp(&mut empty, "total", "tmp_1"));
}

#[test]
fn declared_temp_filled_by_a_constant_collapses() {
    let mut statements = vec![var("x", "int"), assign(name("x"), GoExpression::constant("5".to_string(), ConstantKind::Int))];
    collapse_declared_temp(&mut statements, "x", false);
    assert_eq!(statements, vec![define("x".to_string(), GoExpression::constant("5".to_string(), ConstantKind::Int))]);
}

#[test]
fn declared_temp_of_another_type_stays() {
    let starting = || vec![var("x", "int64"), assign(name("x"), GoExpression::constant("5".to_string(), ConstantKind::Int))];
    let mut statements = starting();
    collapse_declared_temp(&mut statements, "x", false);
    assert_eq!(statements, starting());
    let mut other_name = starting();
    collapse_declared_temp(&mut other_name, "y", false);
    assert_eq!(other_name, starting());
}

#[test]
fn boolean_branches_collapse_into_the_condition() {
    let mut statements = vec![
        var("ok", "bool"),
        LoweredStatement::If(IfPlan::plain(
            name("c"),
            block(vec![assign(name("ok"), literal("true"))]),
            ElseArm::Else { body: block(vec![assign(name("ok"), literal("false"))]), inline: false },
        )),
    ];
    collapse_declared_temp(&mut statements, "ok", false);
    assert_eq!(statements, vec![define("ok".to_string(), name("c"))]);
}

#[test]
fn declared_type_inference_follows_go() {
    assert!(infers_declared_type("rune", &GoExpression::constant("'a'".to_string(), ConstantKind::Rune), false));
    assert!(infers_declared_type("int32", &GoExpression::constant("'a'".to_string(), ConstantKind::Rune), false));
    assert!(!infers_declared_type("int", &GoExpression::constant("1.5".to_string(), ConstantKind::Float), false));
    assert!(infers_declared_type("string", &literal("\"s\""), false));
    assert!(!infers_declared_type("int", &literal("nil"), false));
    assert!(infers_declared_type("bool", &GoExpression::binary(name("a"), "<".to_string(), name("b")), false));
    assert!(infers_declared_type("int", &GoExpression::binary(name("a"), "<<".to_string(), name("b")), false));
    assert!(!infers_declared_type("int", &GoExpression::binary(name("a"), "+".to_string(), name("b")), false));
    assert!(infers_declared_type("int", &GoExpression::binary(name("a"), "+".to_string(), name("b")), true));
    assert!(infers_declared_type("bool", &GoExpression::unary("!", name("a")), false));
    assert!(infers_declared_type("T", &GoExpression::empty_composite("T".to_string()), false));
    assert!(!infers_declared_type("chan int", &name("ch"), true));
    assert!(infers_declared_type("int", &name("n"), true));
    assert!(!infers_declared_type("int", &GoExpression::verbatim("n".to_string()), true));
}

#[test]
fn single_assignment_body_gives_its_value() {
    let body = block(vec![assign(name("x"), literal("true"))]);
    assert_eq!(single_simple_assign_value(&body, "x"), Some(&literal("true")));
    assert_eq!(single_simple_assign_value(&body, "y"), None);
    let two = block(vec![assign(name("x"), literal("true")), assign(name("x"), literal("false"))]);
    assert_eq!(single_simple_assign_value(&two, "x"), None);
    let working = block(vec![assign(name("x"), GoExpression::call(name("f"), Vec::new()))]);
    assert_eq!(single_simple_assign_value(&working, "x"), None);
}

#[test]
fn boolean_branches_join_by_their_literals() {
    assert_eq!(join_boolean_branches(name("c"), literal("true"), literal("false")), Some(name("c")));
    assert_eq!(
        join_boolean_branches(name("c"), literal("false"), literal("true")),
        Some(GoExpression::unary("!", name("c")))
    );
    assert_eq!(join_boolean_branches(name("c"), literal("true"), literal("true")), None);
    assert_eq!(join_boolean_branches(name("c"), literal("false"), literal("false")), None);
    assert_eq!(
        join_boolean_branches(name("c"), name("v"), literal("false")),
        Some(GoExpression::binary(name("c"), "&&".to_string(), name("v")))
    );
    assert_eq!(
        join_boolean_branches(name("c"), literal("true"), name("v")),
        Some(GoExpression::binary(name("c"), "||".to_string(), name("v")))
    );
    assert_eq!(
        join_boolean_branches(name("c"), literal("false"), name("v")),
        Some(GoExpression::binary(GoExpression::unary("!", name("c")), "&&".to_string(), name("v")))
    );
    assert_eq!(
        join_boolean_branches(name("c"), name("v"), literal("true")),
        Some(GoExpression::binary(GoExpression::unary("!", name("c")), "||".to_string(), name("v")))
    );
    assert_eq!(join_boolean_branches(name("c"), name("v"), name("w")), None);
}

#[test]
fn unit_value_is_an_empty_struct() {
    assert_eq!(unit_value().rendered(), "struct{}{}");
}

#[test]
fn paired_test_becomes_the_if_header() {
    let test = PairCondition {
        initializer: Some(Definition::single("v".to_string(), name("lookup"))),
        condition: name("ok"),
    };
    let plan = pair_if(test, block(Vec::new()), ElseArm::NoElse);
    assert_eq!(plan.initializer, Some(Definition::single("v".to_string(), name("lookup"))));
    assert_eq!(plan.condition, name("ok"));
    assert!(plan.condition_setup.is_empty());
}

#[test]
fn chain_is_built_from_the_back() {
    let pieces = vec![
        (name("a"), block(vec![LoweredStatement::Return(vec![literal("1")])])),
        (name("b"), block(vec![LoweredStatement::Return(vec![literal("2")])])),
    ];
    let chain = assemble_if_else_chain(pieces, block(vec![LoweredStatement::Return(vec![literal("3")])]));
    let expected = LoweredStatement::If(IfPlan::plain(
        name("a"),
        block(vec![LoweredStatement::Return(vec![literal("1")])]),
        ElseArm::ElseIf(Box::new(IfPlan::plain(
            name("b"),
            block(vec![LoweredStatement::Return(vec![literal("2")])]),
            ElseArm::Else { body: block(vec![LoweredStatement::Return(vec![literal("3")])]), inline: false },
        ))),
    ));
    assert_eq!(chain, expected);
    let single = assemble_if_else_chain(vec![(name("a"), block(Vec::new()))], block(Vec::new()));
    assert_eq!(single, LoweredStatement::If(IfPlan::plain(name("a"), block(Vec::new()), ElseArm::NoElse)));
}

#[test]
fn break_aims_at_the_current_loop() {
    assert_eq!(loop_break(Some(LoopId(3))), LoweredStatement::Break(LoopTransfer::Source(LoopId(3))));
    assert_eq!(loop_break(None), LoweredStatement::Break(LoopTransfer::Unlabeled));
}

#[test]
fn arm_binding_needs_both_sides() {
    assert!(matches!(ArmBinding::alias(Some("x"), Some("x_1")), Some(ArmBinding::Alias { name: "x", go_name: "x_1" })));
    assert!(ArmBinding::alias(None, Some("x_1")).is_none());
    let value = literal("1");
    assert!(matches!(ArmBinding::copy(Some("x"), Some(&value)), Some(ArmBinding::Copy { name: "x", .. })));
    assert!(ArmBinding::copy(Some("x"), None).is_none());
}

#[test]
fn field_path_is_dotted_go_names() {
    assert!(is_field_path("a.b"));
    assert!(is_field_path("pkg.Name.field_2"));
    assert!(!is_field_path("a"));
    assert!(!is_field_path("a..b"));
    assert!(!is_field_path(".a"));
    assert!(!is_field_path("a."));
    assert!(!is_field_path("a.1b"));
    assert!(!is_field_path("a.b()"));
    assert!(!is_field_path(""));
    assert!(is_field_path("ç.名前"));
    assert!(!is_field_path("a.+"));
}
