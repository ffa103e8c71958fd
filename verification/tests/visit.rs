use emit::bodies::{define, Definition, ElseArm, IfPlan, LoweredBlock, LoweredStatement};
use emit::go_expression::{FunctionLiteralLayout, GoParameter};
use emit::values::GoExpression;
use emit::visit::rename_generated_names;

fn name(value: &str) -> GoExpression {
    GoExpression::name(value.to_string())
}

fn function(parameter: &str, local: &str) -> GoExpression {
    GoExpression::function_literal(
        vec![GoParameter::new(parameter, "int")],
        "int".to_string(),
        LoweredBlock {
            statements: vec![
                define(local.to_string(), name(parameter)),
                LoweredStatement::Return(vec![name(local)]),
            ],
        },
        FunctionLiteralLayout::MultiLine,
    )
}

#[test]
fn renaming_keeps_nested_function_declarations_and_reads_together() {
    let mut statements = vec![define("callback_1".to_string(), function("arg_1", "local_1"))];
    rename_generated_names(&mut statements, &|name: &str| {
        name.strip_suffix("_1").map(str::to_string)
    });
    assert_eq!(statements, vec![define("callback".to_string(), function("arg", "local"))]);
}

#[test]
fn renaming_reaches_each_else_if_initializer() {
    let mut statements = vec![LoweredStatement::If(IfPlan {
        condition_setup: Vec::new(),
        initializer: Some(Definition::single("first_1".to_string(), name("source"))),
        condition: name("first_1"),
        then_body: LoweredBlock { statements: Vec::new() },
        else_arm: ElseArm::ElseIf(Box::new(IfPlan {
            condition_setup: Vec::new(),
            initializer: Some(Definition::single("second_1".to_string(), name("source"))),
            condition: name("second_1"),
            then_body: LoweredBlock { statements: Vec::new() },
            else_arm: ElseArm::NoElse,
        })),
    })];
    rename_generated_names(&mut statements, &|name: &str| {
        name.strip_suffix("_1").map(str::to_string)
    });
    let LoweredStatement::If(first) = &statements[0] else {
        panic!("expected if");
    };
    assert_eq!(first.initializer.as_ref().unwrap().names, ["first"]);
    assert_eq!(first.condition, name("first"));
    let ElseArm::ElseIf(second) = &first.else_arm else {
        panic!("expected else-if");
    };
    assert_eq!(second.initializer.as_ref().unwrap().names, ["second"]);
    assert_eq!(second.condition, name("second"));
}

#[test]
fn renaming_consults_each_nested_name_once() {
    let mut statements = vec![define("callback".to_string(), function("arg", "local"))];
    let seen = std::cell::RefCell::new(Vec::new());
    rename_generated_names(&mut statements, &|name: &str| {
        seen.borrow_mut().push(name.to_string());
        None
    });
    let mut seen = seen.into_inner();
    seen.sort();
    assert_eq!(seen, ["arg", "arg", "callback", "local", "local"]);
    assert_eq!(statements, vec![define("callback".to_string(), function("arg", "local"))]);
}
