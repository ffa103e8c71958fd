use emit::go_expression::GoExpressionNode;
use emit::bodies::{assign, define, discard, ElseArm, IfPlan, LoweredBlock, LoweredStatement};
use emit::cleanup::{drop_empty_else, unwrap_terminal_else_of};
use emit::values::{ConstantKind, GoExpression};

fn name(value: &str) -> GoExpression {
    GoExpression::name(value.to_string())
}

fn block(statements: Vec<LoweredStatement>) -> LoweredBlock {
    LoweredBlock { statements }
}

#[test]
fn renaming_a_name_to_itself_changes_nothing() {
    let mut expression = GoExpression::binary(
        GoExpression::call(name("f"), vec![name("a")]),
        "+".to_string(),
        GoExpression::index(name("a"), name("i")),
    );
    let before = GoExpression::binary(
        GoExpression::call(name("f"), vec![name("a")]),
        "+".to_string(),
        GoExpression::index(name("a"), name("i")),
    );
    expression.rename_identifier("a", "a");
    assert_eq!(expression, before);
    expression.rename_identifier("a", "b");
    assert_eq!(expression.rendered(), "f(b) + b[i]");
}

#[test]
fn unwrapping_twice_is_unwrapping_once() {
    let statement = || {
        LoweredStatement::If(IfPlan::plain(
            name("c"),
            block(vec![LoweredStatement::Return(Vec::new())]),
            ElseArm::Else { body: block(vec![discard(name("x"))]), inline: false },
        ))
    };
    let mut once = statement();
    unwrap_terminal_else_of(&mut once);
    let mut twice = statement();
    unwrap_terminal_else_of(&mut twice);
    unwrap_terminal_else_of(&mut twice);
    assert_eq!(once, twice);
    assert_ne!(once, statement());
}

#[test]
fn dropping_empty_else_twice_is_dropping_once() {
    let statement = || {
        LoweredStatement::If(IfPlan::plain(
            name("c"),
            block(vec![assign(name("x"), name("y"))]),
            ElseArm::ElseIf(Box::new(IfPlan::plain(
                name("d"),
                block(vec![assign(name("x"), name("z"))]),
                ElseArm::Else { body: block(Vec::new()), inline: false },
            ))),
        ))
    };
    let mut once = statement();
    drop_empty_else(&mut once);
    let mut twice = statement();
    drop_empty_else(&mut twice);
    drop_empty_else(&mut twice);
    assert_eq!(once, twice);
    let expected = LoweredStatement::If(IfPlan::plain(
        name("c"),
        block(vec![assign(name("x"), name("y"))]),
        ElseArm::ElseIf(Box::new(IfPlan::plain(name("d"), block(vec![assign(name("x"), name("z"))]), ElseArm::NoElse))),
    ));
    assert_eq!(once, expected);
}

#[test]
fn no_cleanup_pass_lengthens_a_list() {
    let mut statements = vec![
        define("a".to_string(), name("b")),
        LoweredStatement::Return(vec![name("a")]),
        define("unused".to_string(), name("b")),
    ];
    let before = statements.len();
    emit::found::clean_up(&mut statements);
    assert!(statements.len() <= before);
}

#[test]
fn renaming_nothing_keeps_the_statements() {
    let statements = || {
        vec![
            define("a_1".to_string(), name("b")),
            LoweredStatement::If(IfPlan::plain(
                name("a_1"),
                block(vec![assign(name("b"), name("a_1"))]),
                ElseArm::NoElse,
            )),
        ]
    };
    let mut renamed = statements();
    emit::visit::rename_generated_names(&mut renamed, &|_name: &str| None);
    assert_eq!(renamed, statements());
}

#[test]
fn numeric_constant_kinds_mix_in_any_order() {
    let kinds = [ConstantKind::Int, ConstantKind::Rune, ConstantKind::Float, ConstantKind::Complex];
    for a in kinds {
        assert_eq!(a.join(a), Some(a));
        for b in kinds {
            assert_eq!(a.join(b), b.join(a));
            for c in kinds {
                assert_eq!(a.join(b).unwrap().join(c), a.join(b.join(c).unwrap()));
            }
        }
    }
    assert_eq!(ConstantKind::Int.join(ConstantKind::Float), Some(ConstantKind::Float));
    assert_eq!(ConstantKind::Bool.join(ConstantKind::Int), None);
}

fn held(statements: &[LoweredStatement]) -> usize {
    statements.iter().map(|s| 1 + nested_in(s)).sum()
}

fn nested_in_if(plan: &IfPlan) -> usize {
    let else_count = match &plan.else_arm {
        ElseArm::NoElse => 0,
        ElseArm::ElseIf(inner) => nested_in_if(inner),
        ElseArm::Else { body, .. } => held(&body.statements),
    };
    held(&plan.condition_setup) + held(&plan.then_body.statements) + else_count
}

fn nested_in(statement: &LoweredStatement) -> usize {
    match statement {
        LoweredStatement::If(plan) => nested_in_if(plan),
        LoweredStatement::Block(body) | LoweredStatement::Body(body) | LoweredStatement::WhileLet(body) => {
            held(&body.statements)
        }
        _ => 0,
    }
}

#[test]
fn cleanup_never_adds_nested_statements() {
    let mut statements = vec![
        LoweredStatement::If(IfPlan::plain(
            name("c"),
            block(vec![
                define("t".to_string(), name("x")),
                discard(name("t")),
                assign(name("y"), name("x")),
            ]),
            ElseArm::Else { body: block(vec![define("u".to_string(), name("x")), discard(name("u"))]), inline: false },
        )),
        LoweredStatement::Return(vec![name("x")]),
    ];
    let before = held(&statements);
    emit::found::clean_up(&mut statements);
    assert!(held(&statements) <= before);
    assert_eq!(
        statements,
        vec![
            LoweredStatement::If(IfPlan::plain(
                name("c"),
                block(vec![assign(name("y"), name("x"))]),
                ElseArm::NoElse,
            )),
            LoweredStatement::Return(vec![name("x")]),
        ]
    );
    assert_eq!(held(&statements), 3);
    assert_eq!(before, 7);
}

#[test]
fn try_name_accepts_only_plain_names() {
    let named = GoExpression::try_name("count".to_string());
    assert!(named.is_some());
    let named = named.unwrap();
    assert_eq!(named.node(), &GoExpressionNode::Identifier("count".to_string()));
    assert!(GoExpression::try_name("_tmp2".to_string()).is_some());
    assert!(GoExpression::try_name("1x".to_string()).is_none());
    assert!(GoExpression::try_name("a.b".to_string()).is_none());
    assert!(GoExpression::try_name(String::new()).is_none());
}

#[test]
fn dropping_type_arguments_undoes_instantiation() {
    let kept = GoExpression::instantiation(GoExpression::name("f".to_string()), String::new());
    assert_eq!(kept.node(), &GoExpressionNode::Identifier("f".to_string()));

    let generic = GoExpression::instantiation(GoExpression::name("f".to_string()), "int".to_string());
    assert_eq!(
        generic.node(),
        &GoExpressionNode::Instantiation {
            base: Box::new(GoExpressionNode::Identifier("f".to_string())),
            type_arguments: "int".to_string(),
        }
    );
    let plain = generic.without_instantiation();
    assert_eq!(plain.node(), &GoExpressionNode::Identifier("f".to_string()));
}

#[test]
fn a_statement_is_not_among_its_nested_statements() {
    let inner = LoweredStatement::Block(LoweredBlock {
        statements: vec![discard(GoExpression::name("x".to_string()))],
    });
    let outer = LoweredStatement::Block(LoweredBlock {
        statements: vec![define("x".to_string(), GoExpression::name("y".to_string())), inner],
    });
    let nested = outer.for_each_nested_statement();
    assert_eq!(nested.len(), 3);
    assert!(nested.iter().all(|statement| **statement != outer));
    assert_eq!(nested[2], &discard(GoExpression::name("x".to_string())));
}

#[test]
fn clones_of_trees_are_equal_to_their_originals() {
    let body = LoweredBlock {
        statements: vec![
            define("x".to_string(), GoExpression::name("y".to_string())),
            LoweredStatement::Directed {
                directive: "//go:noinline".to_string(),
                inner: Box::new(discard(GoExpression::name("x".to_string()))),
            },
        ],
    };
    let statement = LoweredStatement::Block(body);
    assert_eq!(statement.clone(), statement);

    let base = GoExpression::name("f".to_string());
    assert_eq!(GoExpression::instantiation(base.clone(), String::new()), base);
    let generic = GoExpression::instantiation(base.clone(), "T".to_string());
    assert_eq!(
        generic.node(),
        &GoExpressionNode::Instantiation { base: Box::new(base.node().clone()), type_arguments: "T".to_string() }
    );
    assert_eq!(
        GoExpression::instantiation(base.clone(), "T".to_string()).without_instantiation(),
        GoExpression::from_node(base.node().clone())
    );
}
