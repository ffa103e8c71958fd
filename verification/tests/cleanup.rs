use emit::aliases::{inline_name_aliases, rename_in, replace_only_read};
use emit::bodies::{
    assign, define, discard, expression_statement, AssignForm, CompoundKind, ElseArm, IfPlan,
    LoopHeader, LoopKind, LoopPlan, LoopTransfer, LoweredBlock, LoweredStatement,
};
use emit::cleanup::{
    analyze, fold_compound_assignments, inline_return_aliases, unwrap_terminal_else, NameUses,
};
use emit::found::{clean_up, found_loop_return, return_found_elements_directly};
use emit::temps::drop_unread_temps;
use emit::values::{EvaluationEffect, GoExpression, ValuePlan};

fn name(value: &str) -> GoExpression {
    GoExpression::name(value.to_string())
}

fn literal(value: &str) -> GoExpression {
    GoExpression::literal(value.to_string())
}

fn call(callee: &str, arguments: Vec<GoExpression>) -> GoExpression {
    GoExpression::call(name(callee), arguments)
}

fn binary(left: GoExpression, operator: &str, right: GoExpression) -> GoExpression {
    GoExpression::binary(left, operator.to_string(), right)
}

fn block(statements: Vec<LoweredStatement>) -> LoweredBlock {
    LoweredBlock { statements }
}

fn plain_if(condition: GoExpression, then_body: Vec<LoweredStatement>, else_arm: ElseArm) -> LoweredStatement {
    LoweredStatement::If(IfPlan::plain(condition, block(then_body), else_arm))
}

fn infinite_loop(body: Vec<LoweredStatement>) -> LoweredStatement {
    LoweredStatement::Loop(LoopPlan {
        prologue: Vec::new(),
        kind: LoopKind::Source { label: None },
        header: LoopHeader::Infinite,
        body: block(body),
    })
}

#[test]
fn alias_read_once_takes_its_source() {
    let mut statements = vec![
        define("tmp".to_string(), name("source")),
        expression_statement(call("use", vec![name("tmp")])),
    ];
    inline_name_aliases(&mut statements);
    assert_eq!(statements, vec![expression_statement(call("use", vec![name("source")]))]);
}

#[test]
fn alias_read_twice_stays() {
    let mut statements = vec![
        define("tmp".to_string(), name("source")),
        expression_statement(call("use", vec![name("tmp"), name("tmp")])),
    ];
    inline_name_aliases(&mut statements);
    assert_eq!(
        statements,
        vec![
            define("tmp".to_string(), name("source")),
            expression_statement(call("use", vec![name("tmp"), name("tmp")])),
        ]
    );
}

#[test]
fn alias_is_not_moved_past_work_in_a_sibling() {
    let mut statement = LoweredStatement::Return(vec![call("effect", Vec::new()), name("tmp")]);
    assert!(!replace_only_read(&mut statement, "tmp", "source"));
    assert_eq!(statement, LoweredStatement::Return(vec![call("effect", Vec::new()), name("tmp")]));
}

#[test]
fn alias_read_in_the_assigned_place_stays() {
    let mut statement = assign(name("tmp"), literal("1"));
    assert!(!replace_only_read(&mut statement, "tmp", "source"));
    let mut statement = assign(name("out"), name("tmp"));
    assert!(replace_only_read(&mut statement, "tmp", "source"));
    assert_eq!(statement, assign(name("out"), name("source")));
}

#[test]
fn rename_goes_to_the_one_reading_sibling() {
    let mut siblings = vec![name("a"), binary(name("tmp"), "+", literal("1")), name("b")];
    assert!(rename_in(&mut siblings, None, "tmp", "x"));
    assert_eq!(siblings, vec![name("a"), binary(name("x"), "+", literal("1")), name("b")]);
    let mut unread = vec![name("a")];
    assert!(!rename_in(&mut unread, None, "tmp", "x"));
    assert_eq!(unread, vec![name("a")]);
}

#[test]
fn analysis_counts_reads_and_work() {
    let node = call("f", vec![name("t"), binary(name("t"), "*", name("u"))]);
    let analysis = analyze(node.node(), "t");
    assert_eq!(analysis.reads, 2);
    assert!(analysis.works);
    assert!(analysis.ordered);
    let after_work = call("f", vec![call("g", Vec::new()), name("t")]);
    let analysis = analyze(after_work.node(), "t");
    assert_eq!(analysis.reads, 1);
    assert!(!analysis.ordered);
    let plain = binary(name("t"), "+", literal("1"));
    let analysis = analyze(plain.node(), "t");
    assert_eq!(analysis.reads, 1);
    assert!(!analysis.works);
    assert!(analysis.ordered);
}

#[test]
fn name_uses_count_reads_bindings_and_writes() {
    let statements = vec![
        define("a".to_string(), literal("1")),
        assign(name("a"), binary(name("a"), "+", name("b"))),
        LoweredStatement::Return(vec![name("a")]),
    ];
    let uses = NameUses::of(&statements);
    assert_eq!(uses.reads("a"), 3);
    assert_eq!(uses.bindings("a"), 1);
    assert!(uses.writes_contains("a"));
    assert_eq!(uses.value_reads("a"), 2);
    assert_eq!(uses.reads("b"), 1);
}

#[test]
fn returned_alias_returns_its_value() {
    let mut statements = vec![
        define("v".to_string(), binary(name("a"), "+", name("b"))),
        LoweredStatement::Return(vec![name("v")]),
    ];
    inline_return_aliases(&mut statements);
    assert_eq!(statements, vec![LoweredStatement::Return(vec![binary(name("a"), "+", name("b"))])]);
}

#[test]
fn returned_alias_that_does_work_stays() {
    let mut statements = vec![
        define("v".to_string(), call("f", Vec::new())),
        LoweredStatement::Return(vec![name("v")]),
    ];
    inline_return_aliases(&mut statements);
    assert_eq!(
        statements,
        vec![define("v".to_string(), call("f", Vec::new())), LoweredStatement::Return(vec![name("v")])]
    );
}

#[test]
fn temp_read_only_by_its_discard_goes() {
    let mut statements = vec![
        define("t".to_string(), name("x")),
        discard(name("t")),
        LoweredStatement::Return(vec![name("x")]),
    ];
    drop_unread_temps(&mut statements);
    assert_eq!(statements, vec![LoweredStatement::Return(vec![name("x")])]);
}

#[test]
fn temp_holding_the_last_read_of_its_source_stays() {
    let mut statements = vec![define("t".to_string(), name("x")), discard(name("t"))];
    drop_unread_temps(&mut statements);
    assert_eq!(statements, vec![define("t".to_string(), name("x")), discard(name("t"))]);
}

#[test]
fn dropping_a_temp_drops_the_else_it_empties() {
    let mut statements = vec![
        define("t".to_string(), name("x")),
        plain_if(
            name("c"),
            vec![LoweredStatement::Return(vec![name("x")])],
            ElseArm::Else { body: block(vec![discard(name("t"))]), inline: false },
        ),
        LoweredStatement::Return(vec![name("x")]),
    ];
    drop_unread_temps(&mut statements);
    assert_eq!(
        statements,
        vec![
            plain_if(name("c"), vec![LoweredStatement::Return(vec![name("x")])], ElseArm::NoElse),
            LoweredStatement::Return(vec![name("x")]),
        ]
    );
}

#[test]
fn self_assignment_folds_into_compound_forms() {
    let mut statements = vec![
        assign(name("x"), binary(name("x"), "+", literal("1"))),
        assign(name("y"), binary(name("y"), "-", literal("1"))),
        assign(name("z"), binary(name("z"), "*", name("k"))),
        assign(name("w"), binary(name("k"), "*", name("w"))),
    ];
    fold_compound_assignments(&mut statements);
    let op_assign = LoweredStatement::Assign(AssignForm::Compound {
        target_capture: Vec::new(),
        target: name("z"),
        kind: CompoundKind::OpAssign {
            op_text: "*".to_string(),
            rhs: Box::new(ValuePlan::computed(Vec::new(), name("k"), EvaluationEffect::Pure)),
            pinned_left: None,
        },
    });
    assert_eq!(
        statements,
        vec![
            LoweredStatement::Assign(AssignForm::Compound {
                target_capture: Vec::new(),
                target: name("x"),
                kind: CompoundKind::Increment,
            }),
            LoweredStatement::Assign(AssignForm::Compound {
                target_capture: Vec::new(),
                target: name("y"),
                kind: CompoundKind::Decrement,
            }),
            op_assign,
            assign(name("w"), binary(name("k"), "*", name("w"))),
        ]
    );
}

#[test]
fn folding_twice_is_folding_once() {
    let mut statements = vec![assign(name("x"), binary(name("x"), "<<", literal("2")))];
    fold_compound_assignments(&mut statements);
    let mut again = vec![assign(name("x"), binary(name("x"), "<<", literal("2")))];
    fold_compound_assignments(&mut again);
    fold_compound_assignments(&mut again);
    assert_eq!(statements, again);
}

#[test]
fn else_after_a_return_is_written_inline() {
    let mut statements = vec![plain_if(
        name("c"),
        vec![LoweredStatement::Return(Vec::new())],
        ElseArm::Else { body: block(vec![expression_statement(call("f", Vec::new()))]), inline: false },
    )];
    unwrap_terminal_else(&mut statements);
    assert_eq!(
        statements,
        vec![plain_if(
            name("c"),
            vec![LoweredStatement::Return(Vec::new())],
            ElseArm::Else { body: block(vec![expression_statement(call("f", Vec::new()))]), inline: true },
        )]
    );
}

#[test]
fn else_that_declares_stays_wrapped() {
    let starting = || {
        vec![plain_if(
            name("c"),
            vec![LoweredStatement::Return(Vec::new())],
            ElseArm::Else { body: block(vec![define("v".to_string(), literal("1"))]), inline: false },
        )]
    };
    let mut statements = starting();
    unwrap_terminal_else(&mut statements);
    assert_eq!(statements, starting());
}

fn search(with_value: bool) -> Vec<LoweredStatement> {
    let mut hit = Vec::new();
    if with_value {
        hit.push(assign(name("value_1"), name("item")));
    }
    hit.push(assign(name("found_1"), literal("true")));
    hit.push(LoweredStatement::Break(LoopTransfer::Unlabeled));
    let mut statements = Vec::new();
    if with_value {
        statements.push(LoweredStatement::VarDecl {
            name: "value_1".to_string(),
            go_type: "int".to_string(),
            value: None,
        });
    }
    statements.push(define("found_1".to_string(), literal("false")));
    statements.push(infinite_loop(vec![plain_if(name("hit"), hit, ElseArm::NoElse)]));
    statements.push(plain_if(
        GoExpression::unary("!", name("found_1")),
        vec![LoweredStatement::Return(vec![literal("0"), literal("false")])],
        ElseArm::NoElse,
    ));
    statements.push(LoweredStatement::Return(vec![name("value_1"), literal("true")]));
    statements
}

#[test]
fn search_is_found_at_the_end_of_a_list() {
    let statements = search(true);
    let found = found_loop_return(&statements).unwrap();
    assert_eq!(found.declares_at, 0);
    assert_eq!(found.loop_at, 2);
    assert_eq!(found.flag, "found_1");
    assert_eq!(found.value, Some("value_1".to_string()));
    assert_eq!(found.element, Some("item".to_string()));
    let plain = found_loop_return(&search(false)).unwrap();
    assert_eq!(plain.declares_at, 0);
    assert_eq!(plain.loop_at, 1);
    assert_eq!(plain.value, None);
    assert_eq!(plain.element, None);
    assert!(found_loop_return(&vec![LoweredStatement::Return(Vec::new())]).is_none());
}

#[test]
fn found_element_returns_from_inside_the_loop() {
    let mut statements = search(true);
    return_found_elements_directly(&mut statements);
    assert_eq!(
        statements,
        vec![
            infinite_loop(vec![plain_if(
                name("hit"),
                vec![LoweredStatement::Return(vec![name("item"), literal("true")])],
                ElseArm::NoElse,
            )]),
            LoweredStatement::Return(vec![literal("0"), literal("false")]),
        ]
    );
}

#[test]
fn search_whose_flag_is_read_elsewhere_stays() {
    let mut statements = vec![expression_statement(call("log", vec![name("found_1")]))];
    statements.extend(search(true));
    let before = {
        let mut again = vec![expression_statement(call("log", vec![name("found_1")]))];
        again.extend(search(true));
        again
    };
    return_found_elements_directly(&mut statements);
    assert_eq!(statements, before);
}

#[test]
fn cleanup_runs_every_rewrite() {
    let mut statements = vec![
        define("tmp".to_string(), name("source")),
        assign(name("total"), binary(name("total"), "+", name("tmp"))),
        define("result".to_string(), binary(name("total"), "*", literal("2"))),
        LoweredStatement::Return(vec![name("result")]),
    ];
    clean_up(&mut statements);
    let folded = LoweredStatement::Assign(AssignForm::Compound {
        target_capture: Vec::new(),
        target: name("total"),
        kind: CompoundKind::OpAssign {
            op_text: "+".to_string(),
            rhs: Box::new(ValuePlan::computed(Vec::new(), name("source"), EvaluationEffect::Pure)),
            pinned_left: None,
        },
    });
    assert_eq!(
        statements,
        vec![folded, LoweredStatement::Return(vec![binary(name("total"), "*", literal("2"))])]
    );
}

#[test]
fn cleanup_of_an_empty_body_is_empty() {
    let mut statements: Vec<LoweredStatement> = Vec::new();
    clean_up(&mut statements);
    assert!(statements.is_empty());
}
