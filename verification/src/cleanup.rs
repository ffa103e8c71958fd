//! Rewrites of a lowered body that the tree makes safe to decide: the shapes
//! they look for, and the rewrites themselves.

use crate::bodies::{
    block_diverges, block_renders_empty, AssignForm, CompoundKind, Definition, ElseArm, IfPlan,
    LoopTransfer, LoweredBlock, LoweredStatement,
};
use crate::go_expression::GoExpressionNode;
use crate::model::{
    expr_list_view, stmt_list_view, AssignView, CompoundView, DefView, ElseView, ExprView, IfView,
    NodeView, StmtView, TransferView, ValueView,
};
use crate::text::{is_plain_identifier, is_plain_identifier_text, same_text};
use crate::values::{EvaluationEffect, EvaluationFacts, GoExpression, Stability, ValuePlan};
use crate::walk::{node_views, node_walk};
use vstd::prelude::*;
use vstd::string::StrSliceExecFns;
use vstd::pervasive::VecAdditionalExecFns;

verus! {

// ---------------------------------------------------------------------------
// Shapes
// ---------------------------------------------------------------------------

/// `name := false`.
pub open spec fn false_define_of(s: StmtView) -> Option<Seq<char>> {
    match s {
        StmtView::Define(d) => if d.names.len() == 1 && d.value.node == NodeView::Literal("false"@) {
            Some(d.names[0])
        } else {
            None
        },
        _ => None,
    }
}

/// The plain `target = value` with no setup on either side.
pub open spec fn plain_assignment(s: StmtView) -> Option<(ExprView, ExprView)> {
    match s {
        StmtView::Assign(AssignView::Simple { target_capture, target, value }) => if target_capture.len()
            == 0 && value.setup.len() == 0 {
            Some((target, value.expression))
        } else {
            None
        },
        _ => None,
    }
}

/// `target = element` for a plain name `element`: the element.
pub open spec fn assigned_name_of(s: StmtView, target: Seq<char>) -> Option<Seq<char>> {
    match plain_assignment(s) {
        Some((place, value)) => if place.node == NodeView::Identifier(target) {
            match value.node {
                NodeView::Identifier(element) => Some(element),
                _ => None,
            }
        } else {
            None
        },
        None => None,
    }
}

/// `target = true`.
pub open spec fn assigns_true_to(s: StmtView, target: Seq<char>) -> bool {
    match plain_assignment(s) {
        Some((place, value)) => place.node == NodeView::Identifier(target) && value.node
            == NodeView::Literal("true"@),
        None => false,
    }
}

/// `if !flag { return values }` with nothing else: the values.
pub open spec fn flag_guarded_return_of(s: StmtView, flag: Seq<char>) -> Option<Seq<ExprView>> {
    match s {
        StmtView::If(plan) => if plan.else_arm == ElseView::NoElse && plan.initializer is None
            && plan.condition.node == (NodeView::Unary {
            operator: "!"@,
            operand: Box::new(NodeView::Identifier(flag)),
        }) && plan.then_body.len() == 1 && plan.then_body[0] is Return {
            Some(plan.then_body[0]->Return_0)
        } else {
            None
        },
        _ => None,
    }
}

/// The tail of a search hit: `flag = true; break`.
pub open spec fn raises_and_breaks(rest: Seq<StmtView>, flag: Seq<char>) -> bool {
    rest.len() == 2 && assigns_true_to(rest[0], flag) && rest[1] == StmtView::Break(
        TransferView::Unlabeled,
    )
}

/// `if cond { [value = element;] flag = true; break }`: the element stored,
/// where a value name is given.
pub open spec fn found_hit_of(s: StmtView, flag: Seq<char>, value: Option<Seq<char>>) -> Option<
    Option<Seq<char>>,
> {
    match s {
        StmtView::If(plan) => if plan.else_arm != ElseView::NoElse || plan.initializer is Some {
            None
        } else {
            match value {
                Some(v) => if plan.then_body.len() > 0 && assigned_name_of(plan.then_body[0], v) is Some
                    && raises_and_breaks(plan.then_body.drop_first(), flag) {
                    Some(assigned_name_of(plan.then_body[0], v))
                } else {
                    None
                },
                None => if raises_and_breaks(plan.then_body, flag) {
                    Some(None)
                } else {
                    None
                },
            }
        },
        _ => None,
    }
}

/// `name := value` right before `return name`, with a value that does no
/// work: the name.
pub open spec fn returned_alias_of(definition: StmtView, next: StmtView) -> Option<Seq<char>> {
    match (definition, next) {
        (StmtView::Define(d), StmtView::Return(values)) => if d.names.len() == 1
            && !d.value.node.does_work() && values.len() == 1 && values[0].node
            == NodeView::Identifier(d.names[0]) {
            Some(d.names[0])
        } else {
            None
        },
        _ => None,
    }
}

/// The operators Go has an assignment form of.
pub open spec fn is_compound_op(op: Seq<char>) -> bool {
    op == "+"@ || op == "-"@ || op == "*"@ || op == "/"@ || op == "%"@ || op == "&"@ || op == "|"@
        || op == "^"@ || op == "&^"@ || op == "<<"@ || op == ">>"@
}

/// `temp := source` for a plain name `source`, seeing through a directive.
pub open spec fn alias_define_of(s: StmtView) -> Option<(Seq<char>, Seq<char>)>
    decreases s,
{
    match s {
        StmtView::Directed { inner, .. } => alias_define_of(*inner),
        StmtView::Define(d) => if d.names.len() == 1 {
            match d.value.node {
                NodeView::Identifier(source) => if is_plain_identifier(source) {
                    Some((d.names[0], source))
                } else {
                    None
                },
                _ => None,
            }
        } else {
            None
        },
        _ => None,
    }
}

/// `name := value` with a value that does no work, seeing through a
/// directive.
pub open spec fn pure_define_of(s: StmtView) -> Option<(Seq<char>, ExprView)>
    decreases s,
{
    match s {
        StmtView::Directed { inner, .. } => pure_define_of(*inner),
        StmtView::Define(d) => if d.names.len() == 1 && !d.value.node.does_work() {
            Some((d.names[0], d.value))
        } else {
            None
        },
        _ => None,
    }
}

/// `_ = name`: the name, seeing through a directive.
pub open spec fn discarded_name_of(s: StmtView) -> Option<Seq<char>>
    decreases s,
{
    match s {
        StmtView::Directed { inner, .. } => discarded_name_of(*inner),
        StmtView::Discard(e) => match e.node {
            NodeView::Identifier(name) => Some(name),
            _ => None,
        },
        _ => None,
    }
}

/// A statement that brings names into the enclosing scope, or holds a block
/// that could.
pub open spec fn declares_names(s: StmtView) -> bool {
    let s = match s {
        StmtView::Directed { inner, .. } => *inner,
        other => other,
    };
    s is Define || s is VarDecl || s is Const || s is Select || s is Switch || s is Loop || s is If
}

pub open spec fn declares_no_names_in(body: Seq<StmtView>) -> bool {
    forall|i: int| 0 <= i < body.len() ==> !declares_names(#[trigger] body[i])
}

/// The name is read somewhere in the node, function literals included.
pub open spec fn mentions_name(node: NodeView, name: Seq<char>) -> bool {
    node_walk(node).contains(NodeView::Identifier(name))
}

} // verus!

verus! {

fn is_literal_text(node: &GoExpressionNode, text: &str) -> (r: bool)
    ensures
        r == (node@ == NodeView::Literal(text@)),
{
    match node {
        GoExpressionNode::Literal(t) => {
            assert(node@ == NodeView::Literal(t@));
            same_text(t.as_str(), text)
        },
        _ => false,
    }
}

fn is_identifier_text(node: &GoExpressionNode, name: &str) -> (r: bool)
    ensures
        r == (node@ == NodeView::Identifier(name@)),
{
    match node {
        GoExpressionNode::Identifier(t) => {
            assert(node@ == NodeView::Identifier(t@));
            same_text(t.as_str(), name)
        },
        _ => false,
    }
}

/// `name := false`: the name.
pub fn false_define(statement: &LoweredStatement) -> (name: Option<String>)
    ensures
        crate::model::opt_text(name) == false_define_of(statement@),
{
    match statement {
        LoweredStatement::Define(d) => {
            assert(statement@ == StmtView::Define(d@));
            assert(d@.value == d.value@);
            if d.names.len() == 1 && is_literal_text(&d.value.node, "false") {
                Some(d.names[0].as_str().to_owned())
            } else {
                None
            }
        },
        _ => None,
    }
}

/// The target and value of a plain assignment.
fn plain_assignment_parts(statement: &LoweredStatement) -> (parts: Option<(&GoExpression, &GoExpression)>)
    ensures
        match parts {
            Some((target, value)) => plain_assignment(statement@) == Some((target@, value@)),
            None => plain_assignment(statement@) is None,
        },
{
    match statement {
        LoweredStatement::Assign(form) => {
            assert(statement@ == StmtView::Assign(form.view_assign()));
            let (target_capture, target, value) = match form {
                AssignForm::Simple { target_capture, target, value } => (target_capture, target, value),
                _ => {
                    return None;
                },
            };
            assert(form.view_assign() == AssignView::Simple {
                target_capture: stmt_list_view(target_capture),
                target: target@,
                value: value@,
            });
            assert(value@.setup == stmt_list_view(&value.setup));
            if target_capture.len() == 0 && value.setup.len() == 0 {
                Some((target, &value.expression))
            } else {
                None
            }
        },
        _ => None,
    }
}

/// `target = element` for a plain name: the element.
pub fn assigned_name(statement: &LoweredStatement, target: &str) -> (element: Option<String>)
    ensures
        crate::model::opt_text(element) == assigned_name_of(statement@, target@),
{
    match plain_assignment_parts(statement) {
        Some((place, value)) => {
            if !is_identifier_text(&place.node, target) {
                return None;
            }
            match &value.node {
                GoExpressionNode::Identifier(element) => {
                    assert(value@.node == NodeView::Identifier(element@));
                    Some(element.as_str().to_owned())
                },
                _ => None,
            }
        },
        None => None,
    }
}

/// `target = true`.
pub fn assigns_true(statement: &LoweredStatement, target: &str) -> (r: bool)
    ensures
        r == assigns_true_to(statement@, target@),
{
    match plain_assignment_parts(statement) {
        Some((place, value)) => is_identifier_text(&place.node, target) && is_literal_text(
            &value.node,
            "true",
        ),
        None => false,
    }
}

/// `if !flag { return values }` alone: the returned values.
pub fn flag_guarded_return<'a>(statement: &'a LoweredStatement, flag: &str) -> (values: Option<&'a Vec<GoExpression>>)
    ensures
        match values {
            Some(v) => flag_guarded_return_of(statement@, flag@) == Some(expr_list_view(v)),
            None => flag_guarded_return_of(statement@, flag@) is None,
        },
{
    let plan = match statement {
        LoweredStatement::If(plan) => plan,
        _ => {
            return None;
        },
    };
    assert(statement@ == StmtView::If(plan@));
    let no_else = match &plan.else_arm {
        ElseArm::NoElse => true,
        _ => false,
    };
    if !no_else || plan.initializer.is_some() {
        return None;
    }
    let guarded = match &plan.condition.node {
        GoExpressionNode::Unary { operator, operand } => {
            assert(plan.condition@.node == NodeView::Unary { operator: operator@, operand: Box::new((**operand)@) });
            same_text(operator.as_str(), "!") && is_identifier_text(operand, flag)
        },
        _ => false,
    };
    if !guarded {
        return None;
    }
    if plan.then_body.statements.len() != 1 {
        return None;
    }
    match &plan.then_body.statements[0] {
        LoweredStatement::Return(values) => {
            assert(plan.then_body@[0] == StmtView::Return(expr_list_view(values)));
            Some(values)
        },
        _ => None,
    }
}

/// `flag = true; break` as the last two statements from `start` on.
fn raises_and_breaks_from(statements: &Vec<LoweredStatement>, start: usize, flag: &str) -> (r: bool)
    requires
        start <= statements@.len(),
    ensures
        r == raises_and_breaks(stmt_list_view(statements).skip(start as int), flag@),
{
    let ghost rest = stmt_list_view(statements).skip(start as int);
    if statements.len() - start != 2 {
        return false;
    }
    assert(rest[0] == statements@[start as int]@);
    assert(rest[1] == statements@[start + 1]@);
    if !assigns_true(&statements[start], flag) {
        return false;
    }
    match &statements[start + 1] {
        LoweredStatement::Break(LoopTransfer::Unlabeled) => true,
        LoweredStatement::Break(t) => {
            assert(rest[1] == StmtView::Break(t.view_transfer()));
            false
        },
        _ => false,
    }
}

/// The search hit at the end of a loop body: the element the hit stores into
/// `value`, where there is one.
pub fn found_hit(statement: &LoweredStatement, flag: &str, value: Option<&str>) -> (hit: Option<Option<String>>)
    ensures
        match hit {
            Some(element) => found_hit_of(statement@, flag@, match value {
                Some(v) => Some(v@),
                None => None,
            }) == Some(crate::model::opt_text(element)),
            None => found_hit_of(statement@, flag@, match value {
                Some(v) => Some(v@),
                None => None,
            }) is None,
        },
{
    let plan = match statement {
        LoweredStatement::If(plan) => plan,
        _ => {
            return None;
        },
    };
    assert(statement@ == StmtView::If(plan@));
    let no_else = match &plan.else_arm {
        ElseArm::NoElse => true,
        _ => false,
    };
    if !no_else || plan.initializer.is_some() {
        return None;
    }
    let body = &plan.then_body.statements;
    proof {
        assert(stmt_list_view(body).skip(0) =~= stmt_list_view(body));
        assert(body.len() > 0 ==> stmt_list_view(body).skip(1) =~= stmt_list_view(body).drop_first());
    }
    match value {
        Some(v) => {
            if body.len() == 0 {
                return None;
            }
            let element = assigned_name(&body[0], v);
            if element.is_none() {
                return None;
            }
            if raises_and_breaks_from(body, 1, flag) {
                Some(element)
            } else {
                None
            }
        },
        None => {
            if raises_and_breaks_from(body, 0, flag) {
                Some(None)
            } else {
                None
            }
        },
    }
}

/// `name := value; return name` with a value that does no work: the name.
pub fn returned_alias(definition: &LoweredStatement, next: &LoweredStatement) -> (name: Option<String>)
    ensures
        crate::model::opt_text(name) == returned_alias_of(definition@, next@),
{
    let d = match definition {
        LoweredStatement::Define(d) => d,
        _ => {
            return None;
        },
    };
    assert(definition@ == StmtView::Define(d@));
    assert(d@.value == d.value@);
    if d.names.len() != 1 || d.value.does_work() {
        return None;
    }
    let values = match next {
        LoweredStatement::Return(values) => values,
        _ => {
            return None;
        },
    };
    assert(next@ == StmtView::Return(expr_list_view(values)));
    if values.len() != 1 {
        return None;
    }
    assert(expr_list_view(values)[0] == values@[0]@);
    if is_identifier_text(&values[0].node, d.names[0].as_str()) {
        Some(d.names[0].as_str().to_owned())
    } else {
        None
    }
}

/// Whether Go has an assignment form `op=` of the operator.
pub fn is_compound_operator(operator: &str) -> (r: bool)
    ensures
        r == is_compound_op(operator@),
{
    same_text(operator, "+") || same_text(operator, "-") || same_text(operator, "*") || same_text(
        operator,
        "/",
    ) || same_text(operator, "%") || same_text(operator, "&") || same_text(operator, "|")
        || same_text(operator, "^") || same_text(operator, "&^") || same_text(operator, "<<")
        || same_text(operator, ">>")
}

/// `temp := source` for a plain name: the two names.
pub fn alias_define(statement: &LoweredStatement) -> (names: Option<(String, String)>)
    ensures
        match names {
            Some((temp, source)) => alias_define_of(statement@) == Some((temp@, source@)),
            None => alias_define_of(statement@) is None,
        },
    decreases statement,
{
    match statement {
        LoweredStatement::Directed { inner, .. } => alias_define(inner),
        LoweredStatement::Define(d) => {
            assert(statement@ == StmtView::Define(d@));
            assert(d@.value == d.value@);
            if d.names.len() != 1 {
                return None;
            }
            match &d.value.node {
                GoExpressionNode::Identifier(source) => {
                    assert(d.value@.node == NodeView::Identifier(source@));
                    if is_plain_identifier_text(source.as_str()) {
                        Some((d.names[0].as_str().to_owned(), source.as_str().to_owned()))
                    } else {
                        None
                    }
                },
                _ => None,
            }
        },
        _ => None,
    }
}

/// `name := value` with a value that does no work: the name and the value.
pub fn pure_define(statement: &LoweredStatement) -> (found: Option<(&str, &GoExpression)>)
    ensures
        match found {
            Some((name, value)) => pure_define_of(statement@) == Some((name@, value@)),
            None => pure_define_of(statement@) is None,
        },
    decreases statement,
{
    match statement {
        LoweredStatement::Directed { inner, .. } => pure_define(inner),
        LoweredStatement::Define(d) => {
            assert(statement@ == StmtView::Define(d@));
            assert(d@.value == d.value@);
            if d.names.len() == 1 && !d.value.does_work() {
                Some((d.names[0].as_str(), &d.value))
            } else {
                None
            }
        },
        _ => None,
    }
}

/// `_ = name`: the name.
pub fn discarded_name(statement: &LoweredStatement) -> (name: Option<&str>)
    ensures
        match name {
            Some(n) => discarded_name_of(statement@) == Some(n@),
            None => discarded_name_of(statement@) is None,
        },
    decreases statement,
{
    match statement {
        LoweredStatement::Directed { inner, .. } => discarded_name(inner),
        LoweredStatement::Discard(e) => match &e.node {
            GoExpressionNode::Identifier(name) => {
                assert(e@.node == NodeView::Identifier(name@));
                Some(name.as_str())
            },
            _ => None,
        },
        _ => None,
    }
}

fn declares(statement: &LoweredStatement) -> (r: bool)
    ensures
        r == declares_names(statement@),
{
    let inner = match statement {
        LoweredStatement::Directed { inner, .. } => {
            assert(statement@->Directed_inner == Box::new((**inner)@));
            &**inner
        },
        other => other,
    };
    match inner {
        LoweredStatement::Define(_)
        | LoweredStatement::VarDecl { .. }
        | LoweredStatement::Const(_)
        | LoweredStatement::Select(_)
        | LoweredStatement::Switch(_)
        | LoweredStatement::Loop(_)
        | LoweredStatement::If(_) => true,
        _ => false,
    }
}

/// Whether no statement of the body brings a name into the enclosing scope.
pub fn declares_no_names(body: &LoweredBlock) -> (r: bool)
    ensures
        r == declares_no_names_in(body@),
{
    let mut i: usize = 0;
    while i < body.statements.len()
        invariant
            i <= body@.len(),
            body@.len() == body.statements@.len(),
            forall|j: int| 0 <= j < i ==> !declares_names(#[trigger] body@[j]),
        decreases body.statements@.len() - i,
    {
        assert(body@[i as int] == body.statements@[i as int]@);
        if declares(&body.statements[i]) {
            return false;
        }
        i = i + 1;
    }
    true
}

/// Whether the node reads `name` anywhere, function literals included.
pub fn mentions(node: &GoExpressionNode, name: &str) -> (r: bool)
    ensures
        r == mentions_name(node@, name@),
{
    let visited = node.visit();
    let ghost walk = node_walk(node@);
    let mut i: usize = 0;
    while i < visited.len()
        invariant
            node_views(visited@) == walk,
            walk == node_walk(node@),
            i <= visited@.len(),
            forall|j: int| 0 <= j < i ==> walk[j] != NodeView::Identifier(name@),
        decreases visited@.len() - i,
    {
        assert(walk[i as int] == visited@[i as int]@);
        if is_identifier_text(visited[i], name) {
            assert(walk[i as int] == NodeView::Identifier(name@));
            assert(walk.contains(NodeView::Identifier(name@)));
            return true;
        }
        i = i + 1;
    }
    false
}

} // verus!

verus! {

// ---------------------------------------------------------------------------
// Statement rewrites
// ---------------------------------------------------------------------------

/// The `if` with each `else` that follows a diverging branch written inline,
/// where the branch binds nothing that the inlined body would leave in
/// scope.
pub open spec fn unwrap_if_spec(plan: IfView) -> IfView
    decreases plan,
{
    match plan.else_arm {
        ElseView::ElseIf(inner) => IfView { else_arm: ElseView::ElseIf(Box::new(unwrap_if_spec(*inner))), ..plan },
        ElseView::Else { body, inline } => if block_diverges(plan.then_body) && plan.initializer is None
            && declares_no_names_in(body) {
            IfView { else_arm: ElseView::Else { body, inline: true }, ..plan }
        } else {
            plan
        },
        ElseView::NoElse => plan,
    }
}

pub open spec fn unwrap_terminal_else_spec(s: StmtView) -> StmtView
    decreases s,
{
    match s {
        StmtView::Directed { directive, inner } => StmtView::Directed {
            directive,
            inner: Box::new(unwrap_terminal_else_spec(*inner)),
        },
        StmtView::If(plan) => StmtView::If(unwrap_if_spec(plan)),
        _ => s,
    }
}

/// The `if` with the first `else` along its chain whose body writes nothing
/// dropped.
pub open spec fn drop_empty_else_if(plan: IfView) -> IfView
    decreases plan,
{
    match plan.else_arm {
        ElseView::Else { body, .. } => if block_renders_empty(body) {
            IfView { else_arm: ElseView::NoElse, ..plan }
        } else {
            plan
        },
        ElseView::ElseIf(inner) => IfView { else_arm: ElseView::ElseIf(Box::new(drop_empty_else_if(*inner))), ..plan },
        ElseView::NoElse => plan,
    }
}

pub open spec fn drop_empty_else_spec(s: StmtView) -> StmtView
    decreases s,
{
    match s {
        StmtView::Directed { directive, inner } => StmtView::Directed {
            directive,
            inner: Box::new(drop_empty_else_spec(*inner)),
        },
        StmtView::If(plan) => StmtView::If(drop_empty_else_if(plan)),
        _ => s,
    }
}

/// `name = name op right` as `name op= right`, `name++` or `name--`.
pub open spec fn folded_compound_of(s: StmtView) -> Option<StmtView> {
    match s {
        StmtView::Assign(AssignView::Simple { target_capture, target, value }) => {
            if target_capture.len() == 0 && value.setup.len() == 0 && target.node is Identifier
                && value.expression.node is Binary {
                let name = target.node->Identifier_0;
                let op = value.expression.node->Binary_operator;
                let left = *value.expression.node->Binary_left;
                let right = *value.expression.node->Binary_right;
                if left == NodeView::Identifier(name) && is_compound_op(op) {
                    let kind = if op == "+"@ && right == NodeView::Literal("1"@) {
                        CompoundView::Increment
                    } else if op == "-"@ && right == NodeView::Literal("1"@) {
                        CompoundView::Decrement
                    } else {
                        CompoundView::OpAssign {
                            op_text: op,
                            rhs: ValueView {
                                setup: Seq::empty(),
                                expression: ExprView { node: right, constant: None },
                                evaluation: EvaluationFacts {
                                    stability: Stability::Observable,
                                    effect: value.evaluation.effect,
                                },
                            },
                            pinned_left: None,
                        }
                    };
                    Some(
                        StmtView::Assign(
                            AssignView::Compound { target_capture: Seq::empty(), target, kind },
                        ),
                    )
                } else {
                    None
                }
            } else {
                None
            }
        },
        _ => None,
    }
}

pub open spec fn fold_compound_spec(s: StmtView) -> StmtView {
    match folded_compound_of(s) {
        Some(folded) => folded,
        None => s,
    }
}

fn unwrapped_if(plan: IfPlan) -> (r: IfPlan)
    ensures
        r@ == unwrap_if_spec(plan@),
    decreases plan,
{
    let ghost pv = plan@;
    let then_diverges = plan.then_body.ends_with_diverge();
    let keeps_scope = plan.initializer.is_none();
    let IfPlan { condition_setup, initializer, condition, then_body, else_arm } = plan;
    let else_arm = match else_arm {
        ElseArm::ElseIf(inner) => {
            let ghost iv = (*inner)@;
            assert(pv.else_arm == ElseView::ElseIf(Box::new(iv)));
            let inner = unwrapped_if(*inner);
            ElseArm::ElseIf(Box::new(inner))
        },
        ElseArm::Else { body, inline } => {
            let inline = if then_diverges && keeps_scope && declares_no_names(&body) {
                true
            } else {
                inline
            };
            ElseArm::Else { body, inline }
        },
        ElseArm::NoElse => ElseArm::NoElse,
    };
    IfPlan { condition_setup, initializer, condition, then_body, else_arm }
}

fn unwrapped_terminal_else(statement: LoweredStatement) -> (r: LoweredStatement)
    ensures
        r@ == unwrap_terminal_else_spec(statement@),
    decreases statement,
{
    let ghost sv = statement@;
    match statement {
        LoweredStatement::Directed { directive, inner } => {
            let ghost iv = (*inner)@;
            let inner = unwrapped_terminal_else(*inner);
            LoweredStatement::Directed { directive, inner: Box::new(inner) }
        },
        LoweredStatement::If(plan) => {
            assert(sv == StmtView::If(plan@));
            let plan = unwrapped_if(plan);
            let r = LoweredStatement::If(plan);
            assert(r@ == StmtView::If(plan@));
            r
        },
        other => other,
    }
}

/// Writes inline each `else` that follows a diverging branch, where that
/// keeps every name in its scope.
pub fn unwrap_terminal_else_of(statement: &mut LoweredStatement)
    ensures
        final(statement)@ == unwrap_terminal_else_spec(old(statement)@),
{
    let mut taken = LoweredStatement::UnreachablePanic;
    std::mem::swap(statement, &mut taken);
    *statement = unwrapped_terminal_else(taken);
}

fn dropped_empty_else_if(plan: IfPlan) -> (r: IfPlan)
    ensures
        r@ == drop_empty_else_if(plan@),
    decreases plan,
{
    let ghost pv = plan@;
    let IfPlan { condition_setup, initializer, condition, then_body, else_arm } = plan;
    let else_arm = match else_arm {
        ElseArm::Else { body, inline } => {
            if body.renders_empty() {
                ElseArm::NoElse
            } else {
                ElseArm::Else { body, inline }
            }
        },
        ElseArm::ElseIf(inner) => {
            let ghost iv = (*inner)@;
            assert(pv.else_arm == ElseView::ElseIf(Box::new(iv)));
            ElseArm::ElseIf(Box::new(dropped_empty_else_if(*inner)))
        },
        ElseArm::NoElse => ElseArm::NoElse,
    };
    IfPlan { condition_setup, initializer, condition, then_body, else_arm }
}

fn dropped_empty_else(statement: LoweredStatement) -> (r: LoweredStatement)
    ensures
        r@ == drop_empty_else_spec(statement@),
    decreases statement,
{
    let ghost sv = statement@;
    match statement {
        LoweredStatement::Directed { directive, inner } => {
            let ghost iv = (*inner)@;
            let inner = dropped_empty_else(*inner);
            LoweredStatement::Directed { directive, inner: Box::new(inner) }
        },
        LoweredStatement::If(plan) => {
            assert(sv == StmtView::If(plan@));
            let plan = dropped_empty_else_if(plan);
            let r = LoweredStatement::If(plan);
            assert(r@ == StmtView::If(plan@));
            r
        },
        other => other,
    }
}

/// Drops the first `else` along an `if` chain whose body writes nothing.
pub fn drop_empty_else(statement: &mut LoweredStatement)
    ensures
        final(statement)@ == drop_empty_else_spec(old(statement)@),
{
    let mut taken = LoweredStatement::UnreachablePanic;
    std::mem::swap(statement, &mut taken);
    *statement = dropped_empty_else(taken);
}

/// The statement with `name = name op right` folded into a compound
/// assignment; any other statement as it is.
pub fn folded_compound_assignment(statement: LoweredStatement) -> (r: LoweredStatement)
    ensures
        r@ == fold_compound_spec(statement@),
{
    let ghost sv = statement@;
    let form = match statement {
        LoweredStatement::Assign(form) => form,
        other => {
            return other;
        },
    };
    assert(sv == StmtView::Assign(form.view_assign()));
    let ghost fv = form.view_assign();
    let (target_capture, target, value) = match form {
        AssignForm::Simple { target_capture, target, value } => (target_capture, target, value),
        other => {
            return LoweredStatement::Assign(other);
        },
    };
    assert(fv == AssignView::Simple { target_capture: stmt_list_view(&target_capture), target: target@, value: value@ });
    assert(value@.setup == stmt_list_view(&value.setup));
    let ghost vv = value@;
    if target_capture.len() != 0 || value.setup.len() != 0 {
        return LoweredStatement::Assign(AssignForm::Simple { target_capture, target, value });
    }
    let is_candidate = match (&target.node, &value.expression.node) {
        (GoExpressionNode::Identifier(name), GoExpressionNode::Binary { operator, left, right: _ }) => {
            assert(target@.node == NodeView::Identifier(name@));
            is_identifier_text(left, name.as_str()) && is_compound_operator(operator.as_str())
        },
        _ => false,
    };
    if !is_candidate {
        let r = LoweredStatement::Assign(AssignForm::Simple { target_capture, target, value });
        return r;
    }
    let ValuePlan { setup: _, expression, evaluation } = value;
    let (operator, right) = match expression.node {
        GoExpressionNode::Binary { operator, left: _, right } => (operator, right),
        _ => {
            return LoweredStatement::UnreachablePanic;
        },
    };
    let ghost right_view = (*right)@;
    assert(vv.expression.node->Binary_operator == operator@);
    assert(*vv.expression.node->Binary_right == right_view);
    let increment = same_text(operator.as_str(), "+") && is_literal_text(&right, "1");
    let decrement = same_text(operator.as_str(), "-") && is_literal_text(&right, "1");
    let kind = if increment {
        CompoundKind::Increment
    } else if decrement {
        CompoundKind::Decrement
    } else {
        let rhs = ValuePlan::computed(Vec::new(), GoExpression::from_node(*right), evaluation.effect);
        assert(rhs@.setup =~= Seq::<StmtView>::empty());
        let k = CompoundKind::OpAssign { op_text: operator, rhs: Box::new(rhs), pinned_left: None };
        assert(k.view_compound() == CompoundView::OpAssign { op_text: operator@, rhs: rhs@, pinned_left: None });
        k
    };
    let capture: Vec<LoweredStatement> = Vec::new();
    assert(stmt_list_view(&capture) =~= Seq::<StmtView>::empty());
    let form = AssignForm::Compound { target_capture: capture, target, kind };
    assert(form.view_assign() == AssignView::Compound {
        target_capture: stmt_list_view(&form->Compound_target_capture),
        target: form->Compound_target@,
        kind: form->Compound_kind.view_compound(),
    });
    let r = LoweredStatement::Assign(form);
    assert(r@ == StmtView::Assign(form.view_assign()));
    r
}

} // verus!

verus! {

// ---------------------------------------------------------------------------
// Who reads, binds and writes a name
// ---------------------------------------------------------------------------

/// How often `x` occurs in `s`.
pub open spec fn count_of(s: Seq<Seq<char>>, x: Seq<char>) -> nat
    decreases s.len(),
{
    if s.len() == 0 {
        0
    } else {
        count_of(s.drop_last(), x) + if s.last() == x {
            1nat
        } else {
            0nat
        }
    }
}

/// The names read by the nodes: each identifier, and each name-like token of
/// verbatim Go text.
pub open spec fn read_tokens(nodes: Seq<NodeView>) -> Seq<Seq<char>>
    decreases nodes.len(),
{
    if nodes.len() == 0 {
        Seq::empty()
    } else {
        read_tokens(nodes.drop_last()) + match nodes.last() {
            NodeView::Identifier(t) => crate::text::name_tokens(t),
            NodeView::Verbatim(t) => crate::text::name_tokens(t),
            _ => Seq::empty(),
        }
    }
}

pub open spec fn opt_name(name: Option<Seq<char>>) -> Seq<Seq<char>> {
    match name {
        Some(n) => seq![n],
        None => Seq::empty(),
    }
}

pub open spec fn receive_names(arms: Seq<crate::model::ArmView>) -> Seq<Seq<char>>
    decreases arms.len(),
{
    if arms.len() == 0 {
        Seq::empty()
    } else {
        receive_names(arms.drop_last()) + match arms.last() {
            crate::model::ArmView::Receive { receive_vars, .. } => opt_name(receive_vars),
            _ => Seq::empty(),
        }
    }
}

/// The names a statement binds for the code after it or inside it.
pub open spec fn binding_names(s: StmtView) -> Seq<Seq<char>> {
    match s {
        StmtView::Define(d) => d.names,
        StmtView::VarDecl { name, .. } => seq![name],
        StmtView::Const(c) => seq![c.name],
        StmtView::If(plan) => match plan.initializer {
            Some(d) => d.names,
            None => Seq::empty(),
        },
        StmtView::Loop(plan) => match plan.header {
            crate::model::HeaderView::Range { key, value, .. } => opt_name(key) + opt_name(value),
            crate::model::HeaderView::Counted { variable, .. } => seq![variable],
            _ => Seq::empty(),
        },
        StmtView::Switch(plan) => match plan.kind {
            crate::model::SwitchKindView::Type { binding, .. } => opt_name(binding),
            _ => Seq::empty(),
        },
        StmtView::Select(plan) => receive_names(plan.arms),
        _ => Seq::empty(),
    }
}

/// The places a statement assigns to.
pub open spec fn written_targets(s: StmtView) -> Seq<ExprView> {
    match s {
        StmtView::Assign(AssignView::Simple { target, .. }) => seq![target],
        StmtView::Assign(AssignView::Compound { target, .. }) => seq![target],
        StmtView::AssignMany { targets, .. } => targets,
        _ => Seq::empty(),
    }
}

/// The names assigned whole: the targets that are plain names.
pub open spec fn assigned_names(targets: Seq<ExprView>) -> Seq<Seq<char>>
    decreases targets.len(),
{
    if targets.len() == 0 {
        Seq::empty()
    } else {
        assigned_names(targets.drop_last()) + match targets.last().node {
            NodeView::Identifier(name) => seq![name],
            _ => Seq::empty(),
        }
    }
}

/// The identifiers of the nodes.
pub open spec fn identifier_names(nodes: Seq<NodeView>) -> Seq<Seq<char>>
    decreases nodes.len(),
{
    if nodes.len() == 0 {
        Seq::empty()
    } else {
        identifier_names(nodes.drop_last()) + match nodes.last() {
            NodeView::Identifier(name) => seq![name],
            _ => Seq::empty(),
        }
    }
}

/// The names written through: every identifier inside an assigned place.
pub open spec fn written_names(targets: Seq<ExprView>) -> Seq<Seq<char>>
    decreases targets.len(),
{
    if targets.len() == 0 {
        Seq::empty()
    } else {
        written_names(targets.drop_last()) + identifier_names(node_walk(targets.last().node))
    }
}

pub open spec fn all_bindings(pre: Seq<StmtView>) -> Seq<Seq<char>>
    decreases pre.len(),
{
    if pre.len() == 0 {
        Seq::empty()
    } else {
        all_bindings(pre.drop_last()) + binding_names(pre.last())
    }
}

pub open spec fn all_assigned(pre: Seq<StmtView>) -> Seq<Seq<char>>
    decreases pre.len(),
{
    if pre.len() == 0 {
        Seq::empty()
    } else {
        all_assigned(pre.drop_last()) + assigned_names(written_targets(pre.last()))
    }
}

pub open spec fn all_written(pre: Seq<StmtView>) -> Seq<Seq<char>>
    decreases pre.len(),
{
    if pre.len() == 0 {
        Seq::empty()
    } else {
        all_written(pre.drop_last()) + written_names(written_targets(pre.last()))
    }
}

pub proof fn lemma_single_target(t: ExprView)
    ensures
        assigned_names(seq![t]) == match t.node {
            NodeView::Identifier(name) => seq![name],
            _ => Seq::empty(),
        },
        written_names(seq![t]) == identifier_names(node_walk(t.node)),
{
    assert(seq![t].drop_last() =~= Seq::<ExprView>::empty());
    assert(seq![t].last() == t);
    assert(assigned_names(Seq::<ExprView>::empty()) == Seq::<Seq<char>>::empty());
    assert(written_names(Seq::<ExprView>::empty()) == Seq::<Seq<char>>::empty());
    assert(assigned_names(seq![t]) == assigned_names(Seq::<ExprView>::empty()) + match t.node {
        NodeView::Identifier(name) => seq![name],
        _ => Seq::empty(),
    });
    assert(written_names(seq![t]) == written_names(Seq::<ExprView>::empty()) + identifier_names(node_walk(t.node)));
    assert(assigned_names(seq![t]) =~= match t.node {
        NodeView::Identifier(name) => seq![name],
        _ => Seq::empty(),
    });
    assert(written_names(seq![t]) =~= identifier_names(node_walk(t.node)));
}

/// Every read, binding, whole assignment and write-through of a name in a
/// body, nested lists included.
pub struct NameUses {
    pub reads: Vec<String>,
    pub assigned: Vec<String>,
    pub writes: Vec<String>,
    pub bindings: Vec<String>,
}

pub open spec fn texts_of(v: Seq<String>) -> Seq<Seq<char>> {
    crate::model::texts(v)
}

impl NameUses {
    /// The uses of the statements' names.
    pub open spec fn describes(&self, ss: Seq<StmtView>) -> bool {
        &&& texts_of(self.reads@) == read_tokens(crate::walk::stmts_walk(ss))
        &&& texts_of(self.bindings@) == all_bindings(crate::walk::stmts_preorder(ss))
        &&& texts_of(self.assigned@) == all_assigned(crate::walk::stmts_preorder(ss))
        &&& texts_of(self.writes@) == all_written(crate::walk::stmts_preorder(ss))
    }
}

} // verus!

verus! {

fn push_text(out: &mut Vec<String>, s: &str)
    ensures
        texts_of(final(out)@) == texts_of(old(out)@).push(s@),
{
    out.push(s.to_owned());
    assert(texts_of(out@) =~= texts_of(old(out)@).push(s@));
}

fn push_read_tokens(out: &mut Vec<String>, s: &str)
    ensures
        texts_of(final(out)@) == texts_of(old(out)@) + crate::text::name_tokens(s@),
{
    crate::text::push_name_tokens(s, out);
    let ghost old_len = old(out)@.len();
    let ghost tokens = crate::text::name_tokens(s@);
    assert forall|j: int| old_len <= j < out@.len() implies #[trigger] out@[j]@ == tokens[j - old_len] by {
        let i = j - old_len;
        assert(out@[old_len + i]@ == tokens[i]);
    }
    assert(texts_of(out@) =~= texts_of(old(out)@) + tokens);
}

/// How often `name` occurs.
fn count_text(v: &Vec<String>, name: &str) -> (n: usize)
    ensures
        n == count_of(texts_of(v@), name@),
{
    let ghost tv = texts_of(v@);
    let mut n: usize = 0;
    let mut i: usize = 0;
    while i < v.len()
        invariant
            tv == texts_of(v@),
            i <= v@.len(),
            n <= i,
            n == count_of(tv.take(i as int), name@),
        decreases v@.len() - i,
    {
        proof {
            assert(tv.take(i + 1).drop_last() =~= tv.take(i as int));
            assert(tv.take(i + 1).last() == v@[i as int]@);
        }
        if same_text(v[i].as_str(), name) {
            n = n + 1;
        }
        i = i + 1;
    }
    assert(tv.take(i as int) =~= tv);
    n
}

pub fn contains_text(v: &Vec<String>, name: &str) -> (r: bool)
    ensures
        r == texts_of(v@).contains(name@),
{
    let ghost tv = texts_of(v@);
    let mut i: usize = 0;
    while i < v.len()
        invariant
            tv == texts_of(v@),
            i <= v@.len(),
            forall|j: int| 0 <= j < i ==> tv[j] != name@,
        decreases v@.len() - i,
    {
        assert(tv[i as int] == v@[i as int]@);
        if same_text(v[i].as_str(), name) {
            assert(tv.contains(name@));
            return true;
        }
        i = i + 1;
    }
    false
}

fn push_all_texts(out: &mut Vec<String>, names: &Vec<String>)
    ensures
        texts_of(final(out)@) == texts_of(old(out)@) + texts_of(names@),
{
    let mut i: usize = 0;
    while i < names.len()
        invariant
            i <= names@.len(),
            texts_of(out@) == texts_of(old(out)@) + texts_of(names@).take(i as int),
        decreases names@.len() - i,
    {
        proof {
            assert(texts_of(names@).take(i + 1) =~= texts_of(names@).take(i as int).push(names@[i as int]@));
        }
        push_text(out, names[i].as_str());
        proof {
            assert(texts_of(old(out)@) + texts_of(names@).take(i + 1) =~= (texts_of(old(out)@)
                + texts_of(names@).take(i as int)).push(names@[i as int]@));
        }
        i = i + 1;
    }
    assert(texts_of(names@).take(i as int) =~= texts_of(names@));
}

fn push_opt_name(out: &mut Vec<String>, name: &Option<String>)
    ensures
        texts_of(final(out)@) == texts_of(old(out)@) + opt_name(crate::model::opt_text(*name)),
{
    match name {
        Some(n) => push_text(out, n.as_str()),
        None => {
            assert(texts_of(old(out)@) + Seq::<Seq<char>>::empty() =~= texts_of(old(out)@));
        },
    }
}

/// Pushes the identifiers inside `target`.
fn push_written(out: &mut Vec<String>, target: &GoExpression)
    ensures
        texts_of(final(out)@) == texts_of(old(out)@) + identifier_names(node_walk(target@.node)),
{
    let nodes = target.node.visit();
    let ghost walk = node_walk(target@.node);
    let mut i: usize = 0;
    while i < nodes.len()
        invariant
            node_views(nodes@) == walk,
            i <= nodes@.len(),
            texts_of(out@) == texts_of(old(out)@) + identifier_names(walk.take(i as int)),
        decreases nodes@.len() - i,
    {
        proof {
            assert(walk.take(i + 1).drop_last() =~= walk.take(i as int));
            assert(walk.take(i + 1).last() == nodes@[i as int]@);
        }
        match nodes[i] {
            GoExpressionNode::Identifier(name) => {
                assert(nodes@[i as int]@ == NodeView::Identifier(name@));
                push_text(out, name.as_str());
                assert(texts_of(old(out)@) + identifier_names(walk.take(i + 1)) =~= (texts_of(old(out)@)
                    + identifier_names(walk.take(i as int))).push(name@));
            },
            _ => {
                assert(texts_of(old(out)@) + identifier_names(walk.take(i + 1)) =~= texts_of(old(out)@)
                    + identifier_names(walk.take(i as int)));
            },
        }
        i = i + 1;
    }
    assert(walk.take(i as int) =~= walk);
}

impl NameUses {
    /// The uses of the statements' names, nested lists included.
    pub fn of(statements: &Vec<LoweredStatement>) -> (uses: Self)
        ensures
            uses.describes(stmt_list_view(statements)),
    {
        let nodes = crate::walk::visit_statements(statements);
        let ghost walk = crate::walk::stmts_walk(stmt_list_view(statements));
        let mut reads: Vec<String> = Vec::new();
        assert(texts_of(reads@) =~= Seq::<Seq<char>>::empty());
        let mut i: usize = 0;
        while i < nodes.len()
            invariant
                node_views(nodes@) == walk,
                i <= nodes@.len(),
                texts_of(reads@) == read_tokens(walk.take(i as int)),
            decreases nodes@.len() - i,
        {
            proof {
                assert(walk.take(i + 1).drop_last() =~= walk.take(i as int));
                assert(walk.take(i + 1).last() == nodes@[i as int]@);
            }
            match nodes[i] {
                GoExpressionNode::Identifier(text) => {
                    assert(nodes@[i as int]@ == NodeView::Identifier(text@));
                    push_read_tokens(&mut reads, text.as_str());
                },
                GoExpressionNode::Verbatim(text) => {
                    assert(nodes@[i as int]@ == NodeView::Verbatim(text@));
                    push_read_tokens(&mut reads, text.as_str());
                },
                _ => {
                    assert(read_tokens(walk.take(i + 1)) =~= read_tokens(walk.take(i as int)));
                },
            }
            i = i + 1;
        }
        assert(walk.take(i as int) =~= walk);
        let visited = crate::walk::for_each_statement(statements);
        let ghost pre = crate::walk::stmts_preorder(stmt_list_view(statements));
        let mut uses = NameUses { reads, assigned: Vec::new(), writes: Vec::new(), bindings: Vec::new() };
        proof {
            assert(texts_of(uses.assigned@) =~= Seq::<Seq<char>>::empty());
            assert(texts_of(uses.writes@) =~= Seq::<Seq<char>>::empty());
            assert(texts_of(uses.bindings@) =~= Seq::<Seq<char>>::empty());
        }
        let mut k: usize = 0;
        while k < visited.len()
            invariant
                crate::walk::stmt_refs_view(visited@) == pre,
                k <= visited@.len(),
                texts_of(uses.reads@) == read_tokens(walk),
                texts_of(uses.bindings@) == all_bindings(pre.take(k as int)),
                texts_of(uses.assigned@) == all_assigned(pre.take(k as int)),
                texts_of(uses.writes@) == all_written(pre.take(k as int)),
            decreases visited@.len() - k,
        {
            proof {
                assert(pre.take(k + 1).drop_last() =~= pre.take(k as int));
                assert(pre.take(k + 1).last() == visited@[k as int]@);
            }
            uses.record_bindings(visited[k]);
            k = k + 1;
        }
        assert(pre.take(k as int) =~= pre);
        uses
    }

    /// Records what one statement binds and writes.
    fn record_bindings(&mut self, statement: &LoweredStatement)
        ensures
            final(self).reads == old(self).reads,
            texts_of(final(self).bindings@) == texts_of(old(self).bindings@) + binding_names(statement@),
            texts_of(final(self).assigned@) == texts_of(old(self).assigned@) + assigned_names(written_targets(statement@)),
            texts_of(final(self).writes@) == texts_of(old(self).writes@) + written_names(written_targets(statement@)),
    {
        self.record_binding_names(statement);
        self.record_writes(statement);
    }

    fn record_binding_names(&mut self, statement: &LoweredStatement)
        ensures
            final(self).reads == old(self).reads,
            final(self).assigned == old(self).assigned,
            final(self).writes == old(self).writes,
            texts_of(final(self).bindings@) == texts_of(old(self).bindings@) + binding_names(statement@),
    {
        match statement {
            LoweredStatement::Define(d) => {
                assert(statement@ == StmtView::Define(d@));
                push_all_texts(&mut self.bindings, &d.names);
            },
            LoweredStatement::VarDecl { name, .. } => push_text(&mut self.bindings, name.as_str()),
            LoweredStatement::Const(plan) => push_text(&mut self.bindings, plan.name.as_str()),
            LoweredStatement::If(plan) => {
                assert(statement@ == StmtView::If(plan@));
                match &plan.initializer {
                    Some(d) => {
                        assert(plan@.initializer == Some(d@));
                        push_all_texts(&mut self.bindings, &d.names);
                    },
                    None => {
                        assert(texts_of(old(self).bindings@) + Seq::<Seq<char>>::empty() =~= texts_of(old(self).bindings@));
                    },
                }
            },
            LoweredStatement::Loop(plan) => {
                assert(statement@ == StmtView::Loop(plan.view_loop()));
                assert(plan.view_loop().header == crate::model::header_view(&plan.header));
                match &plan.header {
                    crate::bodies::LoopHeader::Range { key, value, .. } => {
                        push_opt_name(&mut self.bindings, key);
                        push_opt_name(&mut self.bindings, value);
                        assert(texts_of(self.bindings@) =~= texts_of(old(self).bindings@) + (opt_name(
                            crate::model::opt_text(*key),
                        ) + opt_name(crate::model::opt_text(*value))));
                    },
                    crate::bodies::LoopHeader::Counted { variable, .. } => push_text(&mut self.bindings, variable.as_str()),
                    _ => {
                        assert(texts_of(old(self).bindings@) + Seq::<Seq<char>>::empty() =~= texts_of(old(self).bindings@));
                    },
                }
            },
            LoweredStatement::Switch(plan) => {
                assert(statement@ == StmtView::Switch(plan.view_switch()));
                match &plan.kind {
                    crate::bodies::SwitchKind::Type { binding, .. } => push_opt_name(&mut self.bindings, binding),
                    _ => {
                        assert(texts_of(old(self).bindings@) + Seq::<Seq<char>>::empty() =~= texts_of(old(self).bindings@));
                    },
                }
            },
            LoweredStatement::Select(plan) => {
                assert(statement@ == StmtView::Select(plan.view_select()));
                let arms = &plan.arms;
                let ghost av = crate::model::arm_list_view(arms);
                let mut i: usize = 0;
                while i < arms.len()
                    invariant
                        av == crate::model::arm_list_view(arms),
                        av.len() == arms@.len(),
                        i <= arms@.len(),
                        self.reads == old(self).reads,
                        self.assigned == old(self).assigned,
                        self.writes == old(self).writes,
                        texts_of(self.bindings@) == texts_of(old(self).bindings@) + receive_names(av.take(i as int)),
                    decreases arms@.len() - i,
                {
                    proof {
                        assert(av.take(i + 1).drop_last() =~= av.take(i as int));
                        assert(av.take(i + 1).last() == arms@[i as int].view_arm());
                    }
                    match &arms[i] {
                        crate::bodies::SelectArmPlan::Receive { receive_vars, .. } => {
                            push_opt_name(&mut self.bindings, receive_vars);
                        },
                        _ => {},
                    }
                    proof {
                        assert(texts_of(old(self).bindings@) + receive_names(av.take(i + 1)) =~= texts_of(
                            old(self).bindings@,
                        ) + receive_names(av.take(i as int)) + match av[i as int] {
                            crate::model::ArmView::Receive { receive_vars, .. } => opt_name(receive_vars),
                            _ => Seq::empty(),
                        });
                    }
                    i = i + 1;
                }
                assert(av.take(i as int) =~= av);
            },
            _ => {
                assert(texts_of(old(self).bindings@) + Seq::<Seq<char>>::empty() =~= texts_of(old(self).bindings@));
            },
        }
    }

    fn record_target(&mut self, target: &GoExpression)
        ensures
            final(self).reads == old(self).reads,
            final(self).bindings == old(self).bindings,
            texts_of(final(self).assigned@) == texts_of(old(self).assigned@) + match target@.node {
                NodeView::Identifier(name) => seq![name],
                _ => Seq::empty(),
            },
            texts_of(final(self).writes@) == texts_of(old(self).writes@) + identifier_names(node_walk(target@.node)),
    {
        match &target.node {
            GoExpressionNode::Identifier(name) => {
                assert(target@.node == NodeView::Identifier(name@));
                push_text(&mut self.assigned, name.as_str());
            },
            _ => {
                assert(texts_of(old(self).assigned@) + Seq::<Seq<char>>::empty() =~= texts_of(old(self).assigned@));
            },
        }
        push_written(&mut self.writes, target);
    }

    fn record_writes(&mut self, statement: &LoweredStatement)
        ensures
            final(self).reads == old(self).reads,
            final(self).bindings == old(self).bindings,
            texts_of(final(self).assigned@) == texts_of(old(self).assigned@) + assigned_names(written_targets(statement@)),
            texts_of(final(self).writes@) == texts_of(old(self).writes@) + written_names(written_targets(statement@)),
    {
        match statement {
            LoweredStatement::Assign(form) => {
                assert(statement@ == StmtView::Assign(form.view_assign()));
                self.record_assign(form);
            },
            LoweredStatement::AssignMany { targets, value } => {
                assert(statement@ == StmtView::AssignMany { targets: expr_list_view(targets), value: value@ });
                self.record_targets(targets);
            },
            _ => {
                assert(texts_of(old(self).assigned@) + Seq::<Seq<char>>::empty() =~= texts_of(old(self).assigned@));
                assert(texts_of(old(self).writes@) + Seq::<Seq<char>>::empty() =~= texts_of(old(self).writes@));
            },
        }
    }

    fn record_assign(&mut self, form: &AssignForm)
        ensures
            final(self).reads == old(self).reads,
            final(self).bindings == old(self).bindings,
            texts_of(final(self).assigned@) == texts_of(old(self).assigned@) + assigned_names(written_targets(StmtView::Assign(form.view_assign()))),
            texts_of(final(self).writes@) == texts_of(old(self).writes@) + written_names(written_targets(StmtView::Assign(form.view_assign()))),
    {
        match form {
            AssignForm::Simple { target_capture, target, value } => {
                assert(form.view_assign() == AssignView::Simple {
                    target_capture: stmt_list_view(target_capture),
                    target: target@,
                    value: value@,
                });
                self.record_single(target);
            },
            AssignForm::Compound { target_capture, target, kind } => {
                assert(form.view_assign() == AssignView::Compound {
                    target_capture: stmt_list_view(target_capture),
                    target: target@,
                    kind: kind.view_compound(),
                });
                self.record_single(target);
            },
        }
    }

    fn record_single(&mut self, target: &GoExpression)
        ensures
            final(self).reads == old(self).reads,
            final(self).bindings == old(self).bindings,
            texts_of(final(self).assigned@) == texts_of(old(self).assigned@) + assigned_names(seq![target@]),
            texts_of(final(self).writes@) == texts_of(old(self).writes@) + written_names(seq![target@]),
    {
        proof {
            lemma_single_target(target@);
        }
        self.record_target(target);
    }

    fn record_targets(&mut self, targets: &Vec<GoExpression>)
        ensures
            final(self).reads == old(self).reads,
            final(self).bindings == old(self).bindings,
            texts_of(final(self).assigned@) == texts_of(old(self).assigned@) + assigned_names(expr_list_view(targets)),
            texts_of(final(self).writes@) == texts_of(old(self).writes@) + written_names(expr_list_view(targets)),
    {
        let ghost tv = expr_list_view(targets);
        proof {
            assert(tv.take(0) =~= Seq::<ExprView>::empty());
            assert(texts_of(old(self).assigned@) + Seq::<Seq<char>>::empty() =~= texts_of(old(self).assigned@));
            assert(texts_of(old(self).writes@) + Seq::<Seq<char>>::empty() =~= texts_of(old(self).writes@));
        }
        let mut i: usize = 0;
        while i < targets.len()
            invariant
                tv == expr_list_view(targets),
                tv.len() == targets@.len(),
                i <= targets@.len(),
                self.reads == old(self).reads,
                self.bindings == old(self).bindings,
                texts_of(self.assigned@) == texts_of(old(self).assigned@) + assigned_names(tv.take(i as int)),
                texts_of(self.writes@) == texts_of(old(self).writes@) + written_names(tv.take(i as int)),
            decreases targets@.len() - i,
        {
            proof {
                assert(tv.take(i + 1).drop_last() =~= tv.take(i as int));
                assert(tv.take(i + 1).last() == targets@[i as int]@);
            }
            self.record_target(&targets[i]);
            proof {
                let t = tv[i as int];
                let c = match t.node {
                    NodeView::Identifier(name) => seq![name],
                    _ => Seq::empty(),
                };
                vstd::seq_lib::lemma_concat_associative(texts_of(old(self).assigned@), assigned_names(tv.take(i as int)), c);
                vstd::seq_lib::lemma_concat_associative(texts_of(old(self).writes@), written_names(tv.take(i as int)), identifier_names(node_walk(t.node)));
            }
            i = i + 1;
        }
        assert(tv.take(i as int) =~= tv);
    }

    /// How often the name is read.
    pub fn reads(&self, name: &str) -> (n: usize)
        ensures
            n == count_of(texts_of(self.reads@), name@),
    {
        count_text(&self.reads, name)
    }

    /// How often the name is bound.
    pub fn bindings(&self, name: &str) -> (n: usize)
        ensures
            n == count_of(texts_of(self.bindings@), name@),
    {
        count_text(&self.bindings, name)
    }

    /// Whether anything writes through the name.
    pub fn writes_contains(&self, name: &str) -> (r: bool)
        ensures
            r == texts_of(self.writes@).contains(name@),
    {
        contains_text(&self.writes, name)
    }

    /// The reads of the name that are not whole assignments to it.
    pub fn value_reads(&self, name: &str) -> (n: usize)
        ensures
            n == (if count_of(texts_of(self.reads@), name@) >= count_of(texts_of(self.assigned@), name@) {
                count_of(texts_of(self.reads@), name@) - count_of(texts_of(self.assigned@), name@)
            } else {
                0
            }),
    {
        let reads = count_text(&self.reads, name);
        let assigned = count_text(&self.assigned, name);
        if reads >= assigned {
            reads - assigned
        } else {
            0
        }
    }
}

} // verus!

verus! {

// ---------------------------------------------------------------------------
// Passes over every statement list
// ---------------------------------------------------------------------------

/// A rewrite of single statements.
#[derive(Clone, Copy, PartialEq, Eq, Structural)]
pub enum StatementRewrite {
    FoldCompound,
    UnwrapTerminalElse,
    DropEmptyElse,
}

pub open spec fn statement_rewritten(which: StatementRewrite, s: StmtView) -> StmtView {
    match which {
        StatementRewrite::FoldCompound => fold_compound_spec(s),
        StatementRewrite::UnwrapTerminalElse => unwrap_terminal_else_spec(s),
        StatementRewrite::DropEmptyElse => drop_empty_else_spec(s),
    }
}

/// Rewrites each statement of a list on its own.
pub struct EachStatement {
    pub which: StatementRewrite,
}

impl crate::lists::ListRewrite for EachStatement {
    open spec fn rewritten(&self, statements: Seq<StmtView>) -> Seq<StmtView> {
        Seq::new(statements.len(), |i: int| statement_rewritten(self.which, statements[i]))
    }

    fn rewrite(&self, statements: Vec<LoweredStatement>) -> (r: Vec<LoweredStatement>) {
        let ghost before = statements;
        let mut statements = statements;
        let mut i: usize = 0;
        while i < statements.len()
            invariant
                statements@.len() == before@.len(),
                i <= statements@.len(),
                forall|j: int| i <= j < statements@.len() ==> #[trigger] statements@[j] == before@[j],
                forall|j: int| 0 <= j < i ==> #[trigger] statements@[j]@ == statement_rewritten(self.which, before@[j]@),
            decreases statements@.len() - i,
        {
            let mut item = LoweredStatement::UnreachablePanic;
            statements.set_and_swap(i, &mut item);
            let mut item = match self.which {
                StatementRewrite::FoldCompound => folded_compound_assignment(item),
                StatementRewrite::UnwrapTerminalElse => unwrapped_terminal_else(item),
                StatementRewrite::DropEmptyElse => dropped_empty_else(item),
            };
            statements.set_and_swap(i, &mut item);
            i = i + 1;
        }
        proof {
            let target = self.rewritten(stmt_list_view(&before));
            assert forall|j: int| 0 <= j < statements@.len() implies #[trigger] stmt_list_view(&statements)[j] == target[j] by {
                assert(stmt_list_view(&statements)[j] == statements@[j]@);
                assert(stmt_list_view(&before)[j] == before@[j]@);
            }
            assert(stmt_list_view(&statements) =~= target);
        }
        statements
    }
}

/// Folds `name = name op right` into compound assignments everywhere.
pub fn fold_compound_assignments(statements: &mut Vec<LoweredStatement>)
    ensures
        stmt_list_view(final(statements)) == crate::lists::tree_rewritten(
            EachStatement { which: StatementRewrite::FoldCompound },
            stmt_list_view(old(statements)),
        ),
{
    crate::lists::for_each_statements_mut(statements, &EachStatement { which: StatementRewrite::FoldCompound });
}

/// Writes inline, everywhere, each `else` that follows a diverging branch
/// where that keeps every name in its scope.
pub fn unwrap_terminal_else(statements: &mut Vec<LoweredStatement>)
    ensures
        stmt_list_view(final(statements)) == crate::lists::tree_rewritten(
            EachStatement { which: StatementRewrite::UnwrapTerminalElse },
            stmt_list_view(old(statements)),
        ),
{
    crate::lists::for_each_statements_mut(statements, &EachStatement { which: StatementRewrite::UnwrapTerminalElse });
}

} // verus!

verus! {

/// The name is read once, bound once and never written through.
pub open spec fn read_once(uses: NameUses, name: Seq<char>) -> bool {
    &&& count_of(texts_of(uses.reads@), name) == 1
    &&& count_of(texts_of(uses.bindings@), name) == 1
    &&& !texts_of(uses.writes@).contains(name)
}

/// The list from `index` on with each `name := value; return name` whose name
/// is read once turned into `return value`.
pub open spec fn inline_return_aliases_from(list: Seq<StmtView>, index: int, uses: NameUses) -> Seq<
    StmtView,
>
    decreases list.len() - index,
{
    if index < 0 || index + 1 >= list.len() {
        list
    } else {
        match returned_alias_of(list[index], list[index + 1]) {
            Some(name) => if read_once(uses, name) {
                let value = list[index]->Define_0.value;
                let values = list[index + 1]->Return_0;
                inline_return_aliases_from(
                    list.remove(index).update(index, StmtView::Return(values.update(0, value))),
                    index + 1,
                    uses,
                )
            } else {
                inline_return_aliases_from(list, index + 1, uses)
            },
            None => inline_return_aliases_from(list, index + 1, uses),
        }
    }
}

/// Returns the value of a name read only by the `return` right after its
/// definition.
pub struct ReturnAliases {
    pub uses: NameUses,
}

impl crate::lists::ListRewrite for ReturnAliases {
    open spec fn rewritten(&self, statements: Seq<StmtView>) -> Seq<StmtView> {
        inline_return_aliases_from(statements, 0, self.uses)
    }

    fn rewrite(&self, statements: Vec<LoweredStatement>) -> (r: Vec<LoweredStatement>) {
        let ghost target = inline_return_aliases_from(stmt_list_view(&statements), 0, self.uses);
        let mut list = statements;
        let mut index: usize = 0;
        while list.len() > 1 && index < list.len() - 1
            invariant
                target == inline_return_aliases_from(stmt_list_view(&list), index as int, self.uses),
            decreases list@.len() - index,
        {
            let ghost lv = stmt_list_view(&list);
            assert(lv[index as int] == list@[index as int]@);
            assert(lv[index + 1] == list@[index + 1]@);
            let alias = returned_alias(&list[index], &list[index + 1]);
            let removable = match &alias {
                Some(name) => self.uses.reads(name.as_str()) == 1 && self.uses.bindings(name.as_str()) == 1
                    && !self.uses.writes_contains(name.as_str()),
                None => false,
            };
            if removable {
                return_alias_value(&mut list, index);
            }
            index = index + 1;
        }
        list
    }
}

/// Replaces `name := value; return name` at `index` by `return value`.
fn return_alias_value(list: &mut Vec<LoweredStatement>, index: usize)
    requires
        index + 1 < old(list)@.len(),
        returned_alias_of(stmt_list_view(old(list))[index as int], stmt_list_view(old(list))[index + 1]) is Some,
    ensures
        final(list)@.len() + 1 == old(list)@.len(),
        stmt_list_view(final(list)) == stmt_list_view(old(list)).remove(index as int).update(
            index as int,
            StmtView::Return(
                stmt_list_view(old(list))[index + 1]->Return_0.update(
                    0,
                    stmt_list_view(old(list))[index as int]->Define_0.value,
                ),
            ),
        ),
{
    let ghost lv = stmt_list_view(list);
    assert(lv[index as int] == list@[index as int]@);
    assert(lv[index + 1] == list@[index + 1]@);
    let removed = list.remove(index);
    let value = match removed {
        LoweredStatement::Define(d) => {
            assert(lv[index as int] == StmtView::Define(d@));
            assert(d@.value == d.value@);
            d.value
        },
        _ => {
            return;
        },
    };
    let mut item = LoweredStatement::UnreachablePanic;
    list.set_and_swap(index, &mut item);
    let mut values = match item {
        LoweredStatement::Return(values) => {
            assert(lv[index + 1] == StmtView::Return(expr_list_view(&values)));
            values
        },
        _ => {
            return;
        },
    };
    let ghost old_values = expr_list_view(&values);
    let mut v = value;
    values.set_and_swap(0, &mut v);
    assert(expr_list_view(&values) =~= old_values.update(0, value@));
    let mut item = LoweredStatement::Return(values);
    list.set_and_swap(index, &mut item);
    proof {
        assert(stmt_list_view(list) =~= lv.remove(index as int).update(
            index as int,
            StmtView::Return(old_values.update(0, value@)),
        ));
    }
}

/// Returns the value directly wherever a name is defined only to be
/// returned by the next statement.
pub fn inline_return_aliases(statements: &mut Vec<LoweredStatement>)
    ensures
        exists|uses: NameUses| #[trigger] uses.describes(stmt_list_view(old(statements)))
            && stmt_list_view(final(statements)) == crate::lists::tree_rewritten(
            ReturnAliases { uses },
            stmt_list_view(old(statements)),
        ),
{
    let uses = NameUses::of(statements);
    let ghost described = uses;
    let pass = ReturnAliases { uses };
    crate::lists::for_each_statements_mut(statements, &pass);
    assert(described.describes(stmt_list_view(old(statements))));
}

} // verus!

verus! {

// ---------------------------------------------------------------------------
// Where a temporary is read
// ---------------------------------------------------------------------------

/// What an expression does with a temporary: how often it reads it, whether
/// it does work, and whether replacing the read by the temporary's source
/// keeps the order of evaluation.
#[derive(Clone, Copy, PartialEq, Eq, Structural)]
pub struct Analysis {
    pub reads: usize,
    pub works: bool,
    pub ordered: bool,
}

pub open spec fn count_node(nodes: Seq<NodeView>, x: NodeView) -> nat
    decreases nodes.len(),
{
    if nodes.len() == 0 {
        0
    } else {
        count_node(nodes.drop_last(), x) + if nodes.last() == x {
            1nat
        } else {
            0nat
        }
    }
}

/// The reads of all analyses, counted up to the largest `usize`: only
/// whether there are none, one or more matters.
pub open spec fn sum_reads(analyses: Seq<Analysis>) -> usize
    decreases analyses.len(),
{
    if analyses.len() == 0 {
        0
    } else {
        let total = sum_reads(analyses.drop_last()) + analyses.last().reads;
        if total > usize::MAX {
            usize::MAX
        } else {
            total as usize
        }
    }
}

/// The first analysis that reads the temporary.
pub open spec fn first_reader(analyses: Seq<Analysis>) -> Option<int>
    decreases analyses.len(),
{
    if analyses.len() == 0 {
        None
    } else {
        match first_reader(analyses.drop_last()) {
            Some(i) => Some(i),
            None => if analyses.last().reads > 0 {
                Some(analyses.len() - 1)
            } else {
                None
            },
        }
    }
}

/// Some analysis other than the reader does work.
pub open spec fn other_work(analyses: Seq<Analysis>, reader: Option<int>) -> bool {
    exists|i: int| 0 <= i < analyses.len() && Some(i) != reader && #[trigger] analyses[i].works
}

pub open spec fn all_ordered(analyses: Seq<Analysis>) -> bool {
    forall|i: int| 0 <= i < analyses.len() ==> #[trigger] analyses[i].ordered
}

pub open spec fn any_works(analyses: Seq<Analysis>) -> bool {
    exists|i: int| 0 <= i < analyses.len() && #[trigger] analyses[i].works
}

/// The analysis of a node from those of its children.
pub open spec fn combined(node: NodeView, children: Seq<Analysis>, identity_read: bool) -> Analysis {
    Analysis {
        reads: sum_reads(children),
        works: node.does_work() || any_works(children),
        ordered: all_ordered(children) && !(first_reader(children) is Some && other_work(
            children,
            first_reader(children),
        )) && !identity_read,
    }
}

/// The node's address is taken, or a method is called on it, through a path
/// that mentions the temporary.
pub open spec fn identity_read_of(node: NodeView, temp: Seq<char>) -> bool {
    match node {
        NodeView::AddressOf(operand) => mentions_name(*operand, temp),
        NodeView::Slice { base, .. } => mentions_name(*base, temp),
        NodeView::Call { callee, .. } => match *callee {
            NodeView::Selector { base, .. } => mentions_name(*base, temp),
            _ => false,
        },
        _ => false,
    }
}

pub open spec fn opt_analyses(node: Option<Box<NodeView>>, temp: Seq<char>) -> Seq<Analysis>
    decreases node, 0nat,
{
    match node {
        Some(n) => seq![analysis_of(*n, temp)],
        None => Seq::empty(),
    }
}

pub open spec fn element_analyses(elements: Seq<crate::model::ElementView>, temp: Seq<char>) -> Seq<Analysis>
    decreases elements, 0nat,
{
    if elements.len() == 0 {
        Seq::empty()
    } else {
        element_analyses(elements.drop_last(), temp) + match elements.last().key {
            Some(k) => seq![analysis_of(k, temp)],
            None => Seq::empty(),
        } + seq![analysis_of(elements.last().value, temp)]
    }
}

pub open spec fn node_analyses(nodes: Seq<NodeView>, temp: Seq<char>) -> Seq<Analysis>
    decreases nodes, 0nat,
{
    if nodes.len() == 0 {
        Seq::empty()
    } else {
        node_analyses(nodes.drop_last(), temp) + seq![analysis_of(nodes.last(), temp)]
    }
}

/// The analyses of the node's direct children, in order.
pub open spec fn child_analyses(node: NodeView, temp: Seq<char>) -> Seq<Analysis>
    decreases node, 1nat,
{
    match node {
        NodeView::CompositeLiteral { elements, .. } => element_analyses(elements, temp),
        NodeView::Call { callee, arguments } => seq![analysis_of(*callee, temp)] + node_analyses(
            arguments,
            temp,
        ),
        NodeView::Instantiation { base, .. } => seq![analysis_of(*base, temp)],
        NodeView::Selector { base, .. } => seq![analysis_of(*base, temp)],
        NodeView::TypeAssertion { base, .. } => seq![analysis_of(*base, temp)],
        NodeView::Index { base, index } => seq![analysis_of(*base, temp), analysis_of(*index, temp)],
        NodeView::Slice { base, low, high, max } => seq![analysis_of(*base, temp)] + opt_analyses(
            low,
            temp,
        ) + opt_analyses(high, temp) + opt_analyses(max, temp),
        NodeView::Unary { operand, .. } => seq![analysis_of(*operand, temp)],
        NodeView::Conversion { operand, .. } => seq![analysis_of(*operand, temp)],
        NodeView::AddressOf(operand) => seq![analysis_of(*operand, temp)],
        NodeView::Dereference(operand) => seq![analysis_of(*operand, temp)],
        NodeView::Spread(operand) => seq![analysis_of(*operand, temp)],
        NodeView::Binary { left, right, .. } => seq![analysis_of(*left, temp), analysis_of(*right, temp)],
        _ => Seq::empty(),
    }
}

/// What the node does with the temporary.
pub open spec fn analysis_of(node: NodeView, temp: Seq<char>) -> Analysis
    decreases node, 2nat,
{
    match node {
        NodeView::Identifier(name) => Analysis {
            reads: if name == temp {
                1
            } else {
                0
            },
            works: false,
            ordered: true,
        },
        NodeView::FunctionLiteral { body, .. } => {
            let reads = count_node(crate::walk::stmts_walk(body), NodeView::Identifier(temp));
            Analysis { reads: reads as usize, works: false, ordered: reads == 0 }
        },
        NodeView::Verbatim(_) => Analysis { reads: 0, works: true, ordered: true },
        _ => combined(node, child_analyses(node, temp), identity_read_of(node, temp)),
    }
}

} // verus!

verus! {

pub proof fn lemma_first_reader_extends(analyses: Seq<Analysis>, k: int)
    requires
        0 <= k <= analyses.len(),
        first_reader(analyses.take(k)) is Some,
    ensures
        first_reader(analyses) == first_reader(analyses.take(k)),
    decreases analyses.len() - k,
{
    if k < analyses.len() {
        assert(analyses.take(k + 1).drop_last() =~= analyses.take(k));
        lemma_first_reader_extends(analyses, k + 1);
    } else {
        assert(analyses.take(k) =~= analyses);
    }
}

pub fn first_reader_index(analyses: &Vec<Analysis>) -> (r: Option<usize>)
    ensures
        match r {
            Some(i) => first_reader(analyses@) == Some(i as int),
            None => first_reader(analyses@) is None,
        },
{
    let ghost a = analyses@;
    let mut i: usize = 0;
    while i < analyses.len()
        invariant
            a == analyses@,
            i <= a.len(),
            first_reader(a.take(i as int)) is None,
        decreases a.len() - i,
    {
        assert(a.take(i + 1).drop_last() =~= a.take(i as int));
        if analyses[i].reads > 0 {
            proof {
                assert(first_reader(a.take(i + 1)) == Some(i as int));
                lemma_first_reader_extends(a, i + 1);
            }
            return Some(i);
        }
        i = i + 1;
    }
    assert(a.take(i as int) =~= a);
    None
}

/// The node's analysis from those of its children.
fn combine(node: &GoExpressionNode, children: &Vec<Analysis>, identity_read: bool) -> (a: Analysis)
    ensures
        a == combined(node@, children@, identity_read),
{
    let ghost c = children@;
    let mut total: usize = 0;
    let mut i: usize = 0;
    while i < children.len()
        invariant
            c == children@,
            i <= c.len(),
            total == sum_reads(c.take(i as int)),
        decreases c.len() - i,
    {
        assert(c.take(i + 1).drop_last() =~= c.take(i as int));
        let x = children[i].reads;
        if total > usize::MAX - x {
            total = usize::MAX;
        } else {
            total = total + x;
        }
        i = i + 1;
    }
    assert(c.take(i as int) =~= c);
    let reader = first_reader_index(children);
    let mut others = false;
    let mut ordered = true;
    let mut any = false;
    let mut k: usize = 0;
    while k < children.len()
        invariant
            c == children@,
            k <= c.len(),
            others == exists|j: int| 0 <= j < k && Some(j) != first_reader(c) && #[trigger] c[j].works,
            ordered == forall|j: int| 0 <= j < k ==> #[trigger] c[j].ordered,
            any == exists|j: int| 0 <= j < k && #[trigger] c[j].works,
            match reader {
                Some(r) => first_reader(c) == Some(r as int),
                None => first_reader(c) is None,
            },
        decreases c.len() - k,
    {
        let is_reader = match reader {
            Some(r) => r == k,
            None => false,
        };
        if !is_reader && children[k].works {
            others = true;
        }
        if !children[k].ordered {
            ordered = false;
        }
        if children[k].works {
            any = true;
        }
        k = k + 1;
    }
    Analysis {
        reads: total,
        works: node.does_work() || any,
        ordered: ordered && !(reader.is_some() && others) && !identity_read,
    }
}

/// Whether the node takes an address of, or calls a method through, a path
/// that mentions the temporary.
fn identity_read(node: &GoExpressionNode, temp: &str) -> (r: bool)
    ensures
        r == identity_read_of(node@, temp@),
{
    match node {
        GoExpressionNode::AddressOf(operand) => mentions(operand, temp),
        GoExpressionNode::Slice { base, .. } => mentions(base, temp),
        GoExpressionNode::Call { callee, .. } => match &**callee {
            GoExpressionNode::Selector { base, .. } => {
                assert((**callee)@ == NodeView::Selector { base: Box::new((**base)@), field: (**callee)@->Selector_field });
                mentions(base, temp)
            },
            _ => false,
        },
        _ => false,
    }
}

fn one_analysis(a: Analysis) -> (v: Vec<Analysis>)
    ensures
        v@ == seq![a],
{
    let mut v = Vec::new();
    v.push(a);
    assert(v@ =~= seq![a]);
    v
}

fn push_analysis(v: &mut Vec<Analysis>, a: Analysis)
    ensures
        final(v)@ == old(v)@ + seq![a],
{
    v.push(a);
    assert(v@ =~= old(v)@ + seq![a]);
}

fn append_analyses(v: &mut Vec<Analysis>, more: Vec<Analysis>)
    ensures
        final(v)@ == old(v)@ + more@,
{
    let mut more = more;
    v.append(&mut more);
}

fn bound_analyses(bound: &Option<Box<GoExpressionNode>>, temp: &str) -> (v: Vec<Analysis>)
    ensures
        v@ == opt_analyses(crate::model::bound_view(bound), temp@),
    decreases bound, 0nat,
{
    match bound {
        Some(b) => one_analysis(analyze(b, temp)),
        None => {
            let v = Vec::new();
            assert(v@ =~= Seq::<Analysis>::empty());
            v
        },
    }
}

fn element_analyses_of(elements: &Vec<crate::go_expression::CompositeElement>, temp: &str) -> (v: Vec<Analysis>)
    ensures
        v@ == element_analyses(Seq::new(elements@.len(), |i: int| elements@[i]@), temp@),
    decreases elements, 0nat,
{
    let ghost ev = Seq::new(elements@.len(), |i: int| elements@[i]@);
    let mut v: Vec<Analysis> = Vec::new();
    assert(v@ =~= Seq::<Analysis>::empty());
    let mut i: usize = 0;
    while i < elements.len()
        invariant
            ev == Seq::new(elements@.len(), |i: int| elements@[i]@),
            i <= elements@.len(),
            v@ == element_analyses(ev.take(i as int), temp@),
        decreases elements@.len() - i,
    {
        proof {
            assert(decreases_to!(*elements => elements[i as int]));
            assert(ev.take(i + 1).drop_last() =~= ev.take(i as int));
            assert(ev.take(i + 1).last() == elements@[i as int]@);
        }
        let element = &elements[i];
        let ghost before = v@;
        match &element.key {
            Some(k) => {
                assert(element@.key == Some(k@));
                push_analysis(&mut v, analyze(k, temp));
            },
            None => {},
        }
        push_analysis(&mut v, analyze(&element.value, temp));
        proof {
            assert(v@ =~= before + match element@.key {
                Some(k) => seq![analysis_of(k, temp@)],
                None => Seq::empty(),
            } + seq![analysis_of(element@.value, temp@)]);
        }
        i = i + 1;
    }
    assert(ev.take(i as int) =~= ev);
    v
}

fn node_analyses_of(nodes: &Vec<GoExpressionNode>, temp: &str) -> (v: Vec<Analysis>)
    ensures
        v@ == node_analyses(Seq::new(nodes@.len(), |i: int| nodes@[i]@), temp@),
    decreases nodes, 0nat,
{
    let ghost nv = Seq::new(nodes@.len(), |i: int| nodes@[i]@);
    let mut v: Vec<Analysis> = Vec::new();
    assert(v@ =~= Seq::<Analysis>::empty());
    let mut i: usize = 0;
    while i < nodes.len()
        invariant
            nv == Seq::new(nodes@.len(), |i: int| nodes@[i]@),
            i <= nodes@.len(),
            v@ == node_analyses(nv.take(i as int), temp@),
        decreases nodes@.len() - i,
    {
        proof {
            assert(decreases_to!(*nodes => nodes[i as int]));
            assert(nv.take(i + 1).drop_last() =~= nv.take(i as int));
            assert(nv.take(i + 1).last() == nodes@[i as int]@);
        }
        push_analysis(&mut v, analyze(&nodes[i], temp));
        i = i + 1;
    }
    assert(nv.take(i as int) =~= nv);
    v
}

fn child_analyses_of(node: &GoExpressionNode, temp: &str) -> (v: Vec<Analysis>)
    ensures
        v@ == child_analyses(node@, temp@),
    decreases node, 1nat,
{
    match node {
        GoExpressionNode::CompositeLiteral { elements, .. } => {
            assert(Seq::new(elements@.len(), |i: int| elements@[i]@) =~= node@->CompositeLiteral_elements);
            element_analyses_of(elements, temp)
        },
        GoExpressionNode::Call { callee, arguments } => {
            assert(Seq::new(arguments@.len(), |i: int| arguments@[i]@) =~= node@->Call_arguments);
            let mut v = one_analysis(analyze(callee, temp));
            let rest = node_analyses_of(arguments, temp);
            append_analyses(&mut v, rest);
            v
        },
        GoExpressionNode::Instantiation { base, .. } => one_analysis(analyze(base, temp)),
        GoExpressionNode::Selector { base, .. } => one_analysis(analyze(base, temp)),
        GoExpressionNode::TypeAssertion { base, .. } => one_analysis(analyze(base, temp)),
        GoExpressionNode::Index { base, index } => {
            let mut v = one_analysis(analyze(base, temp));
            push_analysis(&mut v, analyze(index, temp));
            assert(v@ =~= seq![analysis_of((**base)@, temp@), analysis_of((**index)@, temp@)]);
            v
        },
        GoExpressionNode::Slice { base, low, high, max } => {
            let mut v = one_analysis(analyze(base, temp));
            let a = bound_analyses(low, temp);
            append_analyses(&mut v, a);
            let b = bound_analyses(high, temp);
            append_analyses(&mut v, b);
            let c = bound_analyses(max, temp);
            append_analyses(&mut v, c);
            v
        },
        GoExpressionNode::Unary { operand, .. } => one_analysis(analyze(operand, temp)),
        GoExpressionNode::Conversion { operand, .. } => one_analysis(analyze(operand, temp)),
        GoExpressionNode::AddressOf(operand) => one_analysis(analyze(operand, temp)),
        GoExpressionNode::Dereference(operand) => one_analysis(analyze(operand, temp)),
        GoExpressionNode::Spread(operand) => one_analysis(analyze(operand, temp)),
        GoExpressionNode::Binary { left, right, .. } => {
            let mut v = one_analysis(analyze(left, temp));
            push_analysis(&mut v, analyze(right, temp));
            assert(v@ =~= seq![analysis_of((**left)@, temp@), analysis_of((**right)@, temp@)]);
            v
        },
        _ => {
            let v = Vec::new();
            assert(v@ =~= Seq::<Analysis>::empty());
            v
        },
    }
}

pub proof fn lemma_count_node_bound(nodes: Seq<NodeView>, x: NodeView)
    ensures
        count_node(nodes, x) <= nodes.len(),
    decreases nodes.len(),
{
    if nodes.len() > 0 {
        lemma_count_node_bound(nodes.drop_last(), x);
    }
}

/// What the node does with the temporary `temp`.
pub fn analyze(node: &GoExpressionNode, temp: &str) -> (a: Analysis)
    ensures
        a == analysis_of(node@, temp@),
    decreases node, 2nat,
{
    match node {
        GoExpressionNode::Identifier(name) => {
            assert(node@ == NodeView::Identifier(name@));
            Analysis {
                reads: if same_text(name.as_str(), temp) {
                    1
                } else {
                    0
                },
                works: false,
                ordered: true,
            }
        },
        GoExpressionNode::FunctionLiteral { body, .. } => {
            assert(node@->FunctionLiteral_body == body@);
            proof {
                assert(decreases_to!(*node => *body));
            }
            let visited = body.visit_expressions();
            let ghost walk = crate::walk::stmts_walk(body@);
            let mut reads: usize = 0;
            let mut i: usize = 0;
            while i < visited.len()
                invariant
                    node_views(visited@) == walk,
                    i <= visited@.len(),
                    reads == count_node(walk.take(i as int), NodeView::Identifier(temp@)),
                    reads <= i,
                decreases visited@.len() - i,
            {
                proof {
                    assert(walk.take(i + 1).drop_last() =~= walk.take(i as int));
                    assert(walk.take(i + 1).last() == visited@[i as int]@);
                }
                if is_identifier_text(visited[i], temp) {
                    reads = reads + 1;
                }
                i = i + 1;
            }
            assert(walk.take(i as int) =~= walk);
            Analysis { reads, works: false, ordered: reads == 0 }
        },
        GoExpressionNode::Verbatim(_) => Analysis { reads: 0, works: true, ordered: true },
        _ => {
            let children = child_analyses_of(node, temp);
            let identity = identity_read(node, temp);
            combine(node, &children, identity)
        },
    }
}

/// The value a compound assignment stores in its target: `t++` stores
/// `t + 1`, `t--` stores `t - 1`, and `t op= r` stores `t op r`.
pub open spec fn compound_assigned_value(target: NodeView, kind: CompoundView) -> NodeView {
    match kind {
        CompoundView::Increment => NodeView::Binary {
            operator: "+"@,
            left: Box::new(target),
            right: Box::new(NodeView::Literal("1"@)),
        },
        CompoundView::Decrement => NodeView::Binary {
            operator: "-"@,
            left: Box::new(target),
            right: Box::new(NodeView::Literal("1"@)),
        },
        CompoundView::OpAssign { op_text, rhs, .. } => NodeView::Binary {
            operator: op_text,
            left: Box::new(target),
            right: Box::new(rhs.expression.node),
        },
    }
}

/// `name = name op right` with nothing to set up first, where Go has
/// `op=` for `op`.
pub open spec fn is_fold_candidate(s: StmtView) -> bool {
    &&& s matches StmtView::Assign(AssignView::Simple { target_capture, target, value })
    &&& target_capture.len() == 0 && value.setup.len() == 0
    &&& target.node matches NodeView::Identifier(name)
    &&& value.expression.node matches NodeView::Binary { operator, left, .. }
    &&& *left == NodeView::Identifier(name)
    &&& is_compound_op(operator)
}

/// `after` stores in the same target the same value as the plain
/// assignment `before`, with nothing set up first.
pub open spec fn stores_the_same(before: StmtView, after: StmtView) -> bool {
    &&& before matches StmtView::Assign(AssignView::Simple { target: t, value, .. })
    &&& after matches StmtView::Assign(AssignView::Compound { target_capture, target, kind })
    &&& target_capture.len() == 0
    &&& target == t
    &&& compound_assigned_value(target.node, kind) == value.expression.node
    &&& match kind {
        CompoundView::OpAssign { rhs, pinned_left, .. } => rhs.setup.len() == 0 && pinned_left is None,
        _ => true,
    }
}

/// Folding `name = name op right` keeps what the statement does: the
/// compound form stores the same value, `name op right`, in the same name.
/// `name++` comes exactly from `name + 1` and `name--` exactly from
/// `name - 1`; any other right operand stays as written, in `name op= right`.
/// Every other statement is left as it is.
pub proof fn law_folding_keeps_the_assigned_value(s: StmtView)
    ensures
        is_fold_candidate(s) ==> stores_the_same(s, fold_compound_spec(s)),
        is_fold_candidate(s) ==> {
            let op = s->Assign_0->Simple_value.expression.node->Binary_operator;
            let right = *s->Assign_0->Simple_value.expression.node->Binary_right;
            let kind = fold_compound_spec(s)->Assign_0->Compound_kind;
            &&& (kind is Increment <==> (op == "+"@ && right == NodeView::Literal("1"@)))
            &&& (kind is Decrement <==> (op == "-"@ && right == NodeView::Literal("1"@)))
        },
        !is_fold_candidate(s) ==> fold_compound_spec(s) == s,
{
    reveal_strlit("+");
    reveal_strlit("-");
    assert("+"@[0] != "-"@[0]);
}

/// The operators Go has an `op=` form for, and so the only ones a plain
/// assignment folds with: `+ - * / % & | ^ &^ << >>`; never a comparison or
/// a logical operator.
pub proof fn law_foldable_operators_are_gos_assignment_operators(operator: Seq<char>)
    ensures
        is_compound_op("+"@),
        is_compound_op("-"@),
        is_compound_op("*"@),
        is_compound_op("/"@),
        is_compound_op("%"@),
        is_compound_op("&"@),
        is_compound_op("|"@),
        is_compound_op("^"@),
        is_compound_op("&^"@),
        is_compound_op("<<"@),
        is_compound_op(">>"@),
        !is_compound_op("=="@) && !is_compound_op("&&"@) && !is_compound_op("||"@),
        is_compound_op(operator) ==> operator.len() == 1 || operator.len() == 2,
{
    reveal_strlit("+");
    reveal_strlit("-");
    reveal_strlit("*");
    reveal_strlit("/");
    reveal_strlit("%");
    reveal_strlit("&");
    reveal_strlit("|");
    reveal_strlit("^");
    reveal_strlit("&^");
    reveal_strlit("<<");
    reveal_strlit(">>");
    reveal_strlit("==");
    reveal_strlit("&&");
    reveal_strlit("||");
    assert("=="@[0] == '=' && "&&"@[1] == '&' && "||"@[0] == '|' && "=="@.len() == 2 && "&&"@.len() == 2 && "||"@.len() == 2);
    assert("&^"@[1] == '^' && "<<"@[1] == '<' && ">>"@[0] == '>' && "&"@.len() == 1 && "&^"@.len() == 2);
}

/// The statements that bind names in the scope they stand in: definitions,
/// `var` and `const` declarations, and the statements that open scopes of
/// their own (`select`, `switch`, loops and `if`s), also behind a
/// directive; a `return`, assignment, discard, jump or bare expression
/// binds none.
pub proof fn law_which_statements_declare_names(s: StmtView, directive: Seq<char>)
    ensures
        (s is Define || s is VarDecl || s is Const || s is Select || s is Switch || s is Loop || s is If) ==> declares_names(s)
            && declares_names(StmtView::Directed { directive, inner: Box::new(s) }),
        (s is Return || s is Assign || s is Discard || s is Break || s is Continue || s is ExpressionStatement
            || s is UnreachablePanic || s is AssignMany || s is Async) ==> !declares_names(s)
            && !declares_names(StmtView::Directed { directive, inner: Box::new(s) }),
{
}

} // verus!
