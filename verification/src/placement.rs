//! Placing a value: a plain assignment, binding a setup's trailing temporary
//! under its final name, and folding `var x T` plus the one statement that
//! fills it into `x := value`.

use crate::bodies::{
    stmt_bound_name, stmt_rebound, AssignForm, ElseArm, IfPlan, LoweredBlock, LoweredStatement,
};
use crate::go_expression::GoExpressionNode;
use crate::model::{
    free_slot, stmt_list_view, AssignView, DefView, ElseView, ExprView, NodeView, StmtView,
    ValueView,
};
use crate::text::same_text;
use crate::values::{binary_constant_kind, unary_constant_kind, ConstantKind, GoExpression, ValuePlan};
use vstd::prelude::*;
use vstd::string::StrSliceExecFns;
use vstd::pervasive::VecAdditionalExecFns;

verus! {

/// `target = value` with nothing to capture first.
pub open spec fn simple_assign_view(target: ExprView, value: ValueView) -> StmtView {
    StmtView::Assign(AssignView::Simple { target_capture: Seq::empty(), target, value })
}

/// A `target = value` assignment with no capture of the target.
pub fn simple_assign(target: GoExpression, value: ValuePlan) -> (s: LoweredStatement)
    ensures
        s@ == simple_assign_view(target@, value@),
{
    let capture: Vec<LoweredStatement> = Vec::new();
    assert(stmt_list_view(&capture) =~= Seq::<StmtView>::empty());
    let ghost tv = target@;
    let ghost vv = value@;
    let form = AssignForm::Simple { target_capture: capture, target, value };
    assert(form.view_assign() == AssignView::Simple { target_capture: Seq::empty(), target: tv, value: vv });
    LoweredStatement::Assign(form)
}

/// Binds the trailing temporary of a setup under `name` in place of copying
/// it: where the last statement binds `temp`, it binds `name` instead.
/// Whether it did.
pub fn rebind_trailing_temp(statements: &mut Vec<LoweredStatement>, name: &str, temp: &str) -> (rebound: bool)
    ensures
        rebound == (old(statements)@.len() > 0 && stmt_bound_name(old(statements)@.last()@) == Some(temp@)),
        rebound ==> stmt_list_view(final(statements)) == stmt_list_view(old(statements)).update(
            old(statements)@.len() - 1,
            stmt_rebound(old(statements)@.last()@, name@),
        ),
        !rebound ==> final(statements)@ == old(statements)@,
{
    let ghost before = stmt_list_view(statements);
    if statements.len() == 0 {
        return false;
    }
    let last = statements.len() - 1;
    if !statements[last].binds_name(temp) {
        return false;
    }
    let mut statement = LoweredStatement::UnreachablePanic;
    statements.set_and_swap(last, &mut statement);
    let renamed = statement.rename_bound_name(name);
    statements.set_and_swap(last, &mut statement);
    assert(stmt_list_view(statements) =~= before.update(last as int, stmt_rebound(old(statements)@.last()@, name@)));
    renamed
}

/// The Go text of the expression is `text`.
#[verifier::opaque]
pub open spec fn renders_as(e: ExprView, text: Seq<char>) -> bool {
    e.node.text(free_slot()) == text
}

fn renders_as_text(e: &GoExpression, text: &str) -> (r: bool)
    ensures
        r == renders_as(e@, text@),
{
    proof {
        reveal(renders_as);
    }
    let rendered = e.rendered();
    same_text(rendered.as_str(), text)
}

/// `chan` occurs in the Go type.
pub open spec fn mentions_chan(go_type: Seq<char>) -> bool {
    exists|i: int| 0 <= i && i + 4 <= go_type.len() && #[trigger] go_type.subrange(i, i + 4) == "chan"@
}

fn mentions_chan_text(go_type: &str) -> (r: bool)
    ensures
        r == mentions_chan(go_type@),
{
    proof {
        reveal_strlit("chan");
    }
    let n = go_type.unicode_len();
    if n < 4 {
        return false;
    }
    assert("chan"@ =~= seq!['c', 'h', 'a', 'n']);
    let mut i: usize = 0;
    while i < n - 3
        invariant
            n == go_type@.len(),
            4 <= n,
            i <= n - 3,
            "chan"@ == seq!['c', 'h', 'a', 'n'],
            forall|j: int| 0 <= j < i ==> #[trigger] go_type@.subrange(j, j + 4) != "chan"@,
        decreases n - i,
    {
        if go_type.get_char(i) == 'c' && go_type.get_char(i + 1) == 'h' && go_type.get_char(i + 2) == 'a'
            && go_type.get_char(i + 3) == 'n' {
            assert(go_type@.subrange(i as int, i + 4) =~= "chan"@);
            return true;
        }
        assert(go_type@.subrange(i as int, i + 4) != "chan"@) by {
            if go_type@.subrange(i as int, i + 4) == "chan"@ {
                assert(go_type@.subrange(i as int, i + 4)[0] == go_type@[i as int]);
                assert(go_type@.subrange(i as int, i + 4)[1] == go_type@[i + 1]);
                assert(go_type@.subrange(i as int, i + 4)[2] == go_type@[i + 2]);
                assert(go_type@.subrange(i as int, i + 4)[3] == go_type@[i + 3]);
            }
        }
        i = i + 1;
    }
    false
}

/// Go gives `name := value` the declared type `go_type` by itself.
pub open spec fn infers_declared(go_type: Seq<char>, value: ExprView, value_has_declared_type: bool) -> bool {
    match value.constant {
        Some(kind) => match kind {
            ConstantKind::Int => go_type == "int"@,
            ConstantKind::Rune => go_type == "rune"@ || go_type == "int32"@,
            ConstantKind::Float => go_type == "float64"@,
            ConstantKind::Complex => go_type == "complex128"@,
            ConstantKind::Bool => go_type == "bool"@,
            ConstantKind::String => go_type == "string"@,
        },
        None => match value.node {
            NodeView::Literal(text) => (go_type == "int"@ || go_type == "string"@ || go_type == "bool"@)
                && text != "nil"@,
            NodeView::CompositeLiteral { go_type: literal_type, .. } => match literal_type {
                Some(t) => t == go_type,
                None => false,
            },
            NodeView::FunctionLiteral { .. } | NodeView::Verbatim(_) => false,
            NodeView::Binary { operator, .. } => if operator == "=="@ || operator == "!="@ || operator == "<"@
                || operator == "<="@ || operator == ">"@ || operator == ">="@ || operator == "&&"@ || operator
                == "||"@ {
                go_type == "bool"@
            } else if operator == "<<"@ || operator == ">>"@ {
                go_type == "int"@
            } else {
                value_has_declared_type
            },
            NodeView::Unary { operator, .. } => if operator == "!"@ {
                go_type == "bool"@
            } else {
                value_has_declared_type && !mentions_chan(go_type)
            },
            _ => value_has_declared_type && !mentions_chan(go_type),
        },
    }
}

fn is_comparison_or_logic(operator: &str) -> (r: bool)
    ensures
        r == (operator@ == "=="@ || operator@ == "!="@ || operator@ == "<"@ || operator@ == "<="@ || operator@
            == ">"@ || operator@ == ">="@ || operator@ == "&&"@ || operator@ == "||"@),
{
    same_text(operator, "==") || same_text(operator, "!=") || same_text(operator, "<") || same_text(operator, "<=")
        || same_text(operator, ">") || same_text(operator, ">=") || same_text(operator, "&&") || same_text(
        operator,
        "||",
    )
}

/// Whether Go gives `name := value` the declared type `go_type` by itself.
pub fn infers_declared_type(go_type: &str, value: &GoExpression, value_has_declared_type: bool) -> (r: bool)
    ensures
        r == infers_declared(go_type@, value@, value_has_declared_type),
{
    match value.constant_kind() {
        Some(kind) => {
            return match kind {
                ConstantKind::Int => same_text(go_type, "int"),
                ConstantKind::Rune => same_text(go_type, "rune") || same_text(go_type, "int32"),
                ConstantKind::Float => same_text(go_type, "float64"),
                ConstantKind::Complex => same_text(go_type, "complex128"),
                ConstantKind::Bool => same_text(go_type, "bool"),
                ConstantKind::String => same_text(go_type, "string"),
            };
        },
        None => {},
    }
    match &value.node {
        GoExpressionNode::Literal(text) => {
            assert(value@.node == NodeView::Literal(text@));
            (same_text(go_type, "int") || same_text(go_type, "string") || same_text(go_type, "bool"))
                && !same_text(text.as_str(), "nil")
        },
        GoExpressionNode::CompositeLiteral { go_type: literal_type, .. } => {
            assert(value@.node->CompositeLiteral_go_type == crate::model::opt_text(*literal_type));
            match literal_type {
                Some(t) => same_text(t.as_str(), go_type),
                None => false,
            }
        },
        GoExpressionNode::FunctionLiteral { .. } | GoExpressionNode::Verbatim(_) => false,
        GoExpressionNode::Binary { operator, .. } => {
            assert(value@.node->Binary_operator == operator@);
            if is_comparison_or_logic(operator.as_str()) {
                same_text(go_type, "bool")
            } else if same_text(operator.as_str(), "<<") || same_text(operator.as_str(), ">>") {
                same_text(go_type, "int")
            } else {
                value_has_declared_type
            }
        },
        GoExpressionNode::Unary { operator, .. } => {
            assert(value@.node->Unary_operator == operator@);
            if same_text(operator.as_str(), "!") {
                same_text(go_type, "bool")
            } else {
                value_has_declared_type && !mentions_chan_text(go_type)
            }
        },
        _ => value_has_declared_type && !mentions_chan_text(go_type),
    }
}

} // verus!

verus! {

/// The value of a body that is exactly one plain `name = value` whose value
/// does no work.
pub open spec fn single_assign_value(body: Seq<StmtView>, name: Seq<char>) -> Option<ExprView> {
    if body.len() == 1 {
        match body[0] {
            StmtView::Assign(AssignView::Simple { target_capture, target, value }) => if renders_as(target, name)
                && target_capture.len() == 0 && value.setup.len() == 0 && !value.expression.node.does_work() {
                Some(value.expression)
            } else {
                None
            },
            _ => None,
        }
    } else {
        None
    }
}

/// The value of a body that is exactly one plain `name = value` whose value
/// does no work.
pub fn single_simple_assign_value<'a>(body: &'a LoweredBlock, name: &str) -> (value: Option<&'a GoExpression>)
    ensures
        match value {
            Some(v) => single_assign_value(body@, name@) == Some(v@),
            None => single_assign_value(body@, name@) is None,
        },
{
    assert(body@ == stmt_list_view(&body.statements));
    if body.statements.len() != 1 {
        return None;
    }
    assert(body@[0] == body.statements@[0]@);
    match &body.statements[0] {
        LoweredStatement::Assign(form) => {
            assert(body@[0] == StmtView::Assign(form.view_assign()));
            match form {
                AssignForm::Simple { target_capture, target, value } => {
                    assert(form.view_assign() == AssignView::Simple {
                        target_capture: stmt_list_view(target_capture),
                        target: target@,
                        value: value@,
                    });
                    if renders_as_text(target, name) && target_capture.len() == 0 && value.setup.len() == 0
                        && !value.expression.does_work() {
                        Some(&value.expression)
                    } else {
                        None
                    }
                },
                _ => None,
            }
        },
        _ => None,
    }
}

/// `!operand`.
pub open spec fn not_expr(e: ExprView) -> ExprView {
    ExprView {
        node: NodeView::Unary { operator: "!"@, operand: Box::new(e.node) },
        constant: unary_constant_kind("!"@, e.constant),
    }
}

/// `left operator right`.
pub open spec fn binary_expr(left: ExprView, operator: Seq<char>, right: ExprView) -> ExprView {
    ExprView {
        node: NodeView::Binary { operator, left: Box::new(left.node), right: Box::new(right.node) },
        constant: binary_constant_kind(left.constant, operator, right.constant),
    }
}

/// The boolean that `if condition { x = then } else { x = else }` leaves in
/// `x`, as one expression; `None` where the two branches assign the same
/// literal, which would drop the condition's evaluation, or where neither
/// value is a boolean literal.
pub open spec fn joined_branches(condition: ExprView, then_value: ExprView, else_value: ExprView) -> Option<ExprView> {
    let then_true = renders_as(then_value, "true"@);
    let then_false = renders_as(then_value, "false"@);
    let else_true = renders_as(else_value, "true"@);
    let else_false = renders_as(else_value, "false"@);
    if then_true && else_false {
        Some(condition)
    } else if then_false && else_true {
        Some(not_expr(condition))
    } else if (then_true && else_true) || (then_false && else_false) {
        None
    } else if else_false {
        Some(binary_expr(condition, "&&"@, then_value))
    } else if then_true {
        Some(binary_expr(condition, "||"@, else_value))
    } else if then_false {
        Some(binary_expr(not_expr(condition), "&&"@, else_value))
    } else if else_true {
        Some(binary_expr(not_expr(condition), "||"@, then_value))
    } else {
        None
    }
}

/// The branches join, whatever the condition.
pub open spec fn branches_join_view(then_value: ExprView, else_value: ExprView) -> bool {
    let then_true = renders_as(then_value, "true"@);
    let then_false = renders_as(then_value, "false"@);
    let else_true = renders_as(else_value, "true"@);
    let else_false = renders_as(else_value, "false"@);
    (then_true && else_false) || (then_false && else_true) || (!((then_true && else_true) || (then_false
        && else_false)) && (else_false || then_true || then_false || else_true))
}

pub proof fn lemma_branches_join(condition: ExprView, then_value: ExprView, else_value: ExprView)
    ensures
        joined_branches(condition, then_value, else_value) is Some <==> branches_join_view(then_value, else_value),
{
}

fn branches_join(then_value: &GoExpression, else_value: &GoExpression) -> (r: bool)
    ensures
        r == branches_join_view(then_value@, else_value@),
{
    let then_true = renders_as_text(then_value, "true");
    let then_false = renders_as_text(then_value, "false");
    let else_true = renders_as_text(else_value, "true");
    let else_false = renders_as_text(else_value, "false");
    (then_true && else_false) || (then_false && else_true) || (!((then_true && else_true) || (then_false
        && else_false)) && (else_false || then_true || then_false || else_true))
}

/// The boolean that `if condition { x = then } else { x = else }` leaves in
/// `x`, as one expression, where the branches join.
pub fn join_boolean_branches(condition: GoExpression, then_value: GoExpression, else_value: GoExpression) -> (joined:
    Option<GoExpression>)
    ensures
        match joined {
            Some(j) => joined_branches(condition@, then_value@, else_value@) == Some(j@),
            None => joined_branches(condition@, then_value@, else_value@) is None,
        },
{
    let then_true = renders_as_text(&then_value, "true");
    let then_false = renders_as_text(&then_value, "false");
    let else_true = renders_as_text(&else_value, "true");
    let else_false = renders_as_text(&else_value, "false");
    if then_true && else_false {
        Some(condition)
    } else if then_false && else_true {
        Some(GoExpression::unary("!", condition))
    } else if (then_true && else_true) || (then_false && else_false) {
        None
    } else if else_false {
        Some(GoExpression::binary(condition, "&&".to_string(), then_value))
    } else if then_true {
        Some(GoExpression::binary(condition, "||".to_string(), else_value))
    } else if then_false {
        Some(GoExpression::binary(GoExpression::unary("!", condition), "&&".to_string(), else_value))
    } else if else_true {
        Some(GoExpression::binary(GoExpression::unary("!", condition), "||".to_string(), then_value))
    } else {
        None
    }
}

} // verus!

verus! {

/// The value that the statement after `var name go_type` fills `name` with,
/// where `name := value` says the same: a plain assignment of a value that
/// does no work and whose type Go infers as `go_type`, or, for a `bool`, an
/// `if`/`else` whose branches each assign a boolean that joins into one
/// expression.
pub open spec fn filled_value(filler: StmtView, go_type: Seq<char>, name: Seq<char>, value_has_declared_type: bool) -> Option<
    ExprView,
> {
    match filler {
        StmtView::Assign(AssignView::Simple { target_capture, target, value }) => if infers_declared(
            go_type,
            value.expression,
            value_has_declared_type,
        ) && renders_as(target, name) && target_capture.len() == 0 && value.setup.len() == 0
            && !value.expression.node.does_work() {
            Some(value.expression)
        } else {
            None
        },
        StmtView::If(plan) => if go_type == "bool"@ && plan.condition_setup.len() == 0 && plan.initializer is None {
            match plan.else_arm {
                ElseView::Else { body, .. } => match (
                    single_assign_value(plan.then_body, name),
                    single_assign_value(body, name),
                ) {
                    (Some(then_value), Some(else_value)) => joined_branches(plan.condition, then_value, else_value),
                    _ => None,
                },
                _ => None,
            }
        } else {
            None
        },
        _ => None,
    }
}

/// The value `name := value` takes in place of `var name T` and its filler.
pub open spec fn collapsed_value(statements: Seq<StmtView>, name: Seq<char>, value_has_declared_type: bool) -> Option<
    ExprView,
> {
    if statements.len() == 2 {
        match statements[0] {
            StmtView::VarDecl { name: declared, go_type, value } => if value is None && declared == name {
                filled_value(statements[1], go_type, name, value_has_declared_type)
            } else {
                None
            },
            _ => None,
        }
    } else {
        None
    }
}

/// Whether the filler fills the name with a value `name :=` can take.
fn fills(filler: &LoweredStatement, go_type: &str, name: &str, value_has_declared_type: bool) -> (r: bool)
    ensures
        r == filled_value(filler@, go_type@, name@, value_has_declared_type) is Some,
{
    match filler {
        LoweredStatement::Assign(form) => {
            assert(filler@ == StmtView::Assign(form.view_assign()));
            match form {
                AssignForm::Simple { target_capture, target, value } => {
                    assert(form.view_assign() == AssignView::Simple {
                        target_capture: stmt_list_view(target_capture),
                        target: target@,
                        value: value@,
                    });
                    infers_declared_type(go_type, &value.expression, value_has_declared_type) && renders_as_text(
                        target,
                        name,
                    ) && target_capture.len() == 0 && value.setup.len() == 0 && !value.expression.does_work()
                },
                _ => false,
            }
        },
        LoweredStatement::If(plan) => {
            assert(filler@ == StmtView::If(plan@));
            if !same_text(go_type, "bool") || plan.condition_setup.len() != 0 || plan.initializer.is_some() {
                return false;
            }
            match &plan.else_arm {
                ElseArm::Else { body, .. } => {
                    assert(plan@.else_arm == ElseView::Else { body: body@, inline: plan@.else_arm->Else_inline });
                    match (single_simple_assign_value(&plan.then_body, name), single_simple_assign_value(body, name)) {
                        (Some(then_value), Some(else_value)) => {
                            proof {
                                lemma_branches_join(plan@.condition, then_value@, else_value@);
                            }
                            branches_join(then_value, else_value)
                        },
                        _ => false,
                    }
                },
                _ => false,
            }
        },
        _ => false,
    }
}

/// The value of a body that is exactly one plain `name = value`, taken out.
fn take_single_assign_value(body: LoweredBlock, Ghost(name): Ghost<Seq<char>>) -> (value: GoExpression)
    requires
        single_assign_value(body@, name) is Some,
    ensures
        value@ == single_assign_value(body@, name).unwrap(),
{
    let ghost bv = body@;
    let mut statements = body.statements;
    assert(bv[0] == statements@[0]@);
    let statement = match statements.pop() {
        Some(s) => s,
        None => LoweredStatement::UnreachablePanic,
    };
    assert(statement@ == bv[0]);
    match statement {
        LoweredStatement::Assign(form) => {
            assert(bv[0] == StmtView::Assign(form.view_assign()));
            match form {
                AssignForm::Simple { target_capture, target, value } => {
                    assert(form.view_assign() == AssignView::Simple {
                        target_capture: stmt_list_view(&target_capture),
                        target: target@,
                        value: value@,
                    });
                    value.expression
                },
                _ => GoExpression::empty(),
            }
        },
        _ => GoExpression::empty(),
    }
}

/// The value the filler fills the name with, taken out of it.
fn take_filled_value(
    filler: LoweredStatement,
    Ghost(go_type): Ghost<Seq<char>>,
    Ghost(name): Ghost<Seq<char>>,
    value_has_declared_type: bool,
) -> (value: GoExpression)
    requires
        filled_value(filler@, go_type, name, value_has_declared_type) is Some,
    ensures
        value@ == filled_value(filler@, go_type, name, value_has_declared_type).unwrap(),
{
    let ghost fv = filler@;
    match filler {
        LoweredStatement::Assign(form) => {
            assert(fv == StmtView::Assign(form.view_assign()));
            match form {
                AssignForm::Simple { target_capture: _, target: _, value } => value.expression,
                _ => GoExpression::empty(),
            }
        },
        LoweredStatement::If(plan) => {
            assert(fv == StmtView::If(plan@));
            let ghost pv = plan@;
            let IfPlan { condition_setup: _, initializer: _, condition, then_body, else_arm } = plan;
            match else_arm {
                ElseArm::Else { body, inline: _ } => {
                    assert(pv.else_arm == ElseView::Else { body: body@, inline: pv.else_arm->Else_inline });
                    let then_value = take_single_assign_value(then_body, Ghost(name));
                    let else_value = take_single_assign_value(body, Ghost(name));
                    match join_boolean_branches(condition, then_value, else_value) {
                        Some(joined) => joined,
                        None => GoExpression::empty(),
                    }
                },
                _ => GoExpression::empty(),
            }
        },
        _ => GoExpression::empty(),
    }
}

/// Folds `var name T` plus the one statement that fills it into
/// `name := value`, where Go gives the value the declared type by itself;
/// any other list stays as it is.
pub fn collapse_declared_temp(statements: &mut Vec<LoweredStatement>, name: &str, value_has_declared_type: bool)
    ensures
        match collapsed_value(stmt_list_view(old(statements)), name@, value_has_declared_type) {
            Some(value) => stmt_list_view(final(statements)) == seq![
                StmtView::Define(DefView { names: seq![name@], value }),
            ],
            None => final(statements)@ == old(statements)@,
        },
{
    let ghost before = stmt_list_view(statements);
    if statements.len() != 2 {
        return;
    }
    assert(before[0] == statements@[0]@);
    assert(before[1] == statements@[1]@);
    let (fits, go_type) = match &statements[0] {
        LoweredStatement::VarDecl { name: declared, go_type, value } => {
            let fits = value.is_none() && same_text(declared.as_str(), name) && fills(
                &statements[1],
                go_type.as_str(),
                name,
                value_has_declared_type,
            );
            (fits, go_type.as_str().to_owned())
        },
        _ => {
            return;
        },
    };
    if !fits {
        return;
    }
    let filler = match statements.pop() {
        Some(s) => s,
        None => {
            return;
        },
    };
    let value = take_filled_value(filler, Ghost(go_type@), Ghost(name@), value_has_declared_type);
    let mut defined = crate::bodies::define(name.to_owned(), value);
    statements.set_and_swap(0, &mut defined);
    assert(stmt_list_view(statements) =~= seq![statements@[0]@]);
}

} // verus!
