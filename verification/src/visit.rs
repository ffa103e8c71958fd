//! Renaming the names a lowered body binds and reads: every binding position
//! and every identifier, function literals and `else if` chains included,
//! goes through one renaming function.

use crate::bodies::{
    AssignForm, CompoundKind, ConstPlan, Definition, ElseArm, IfPlan, LoopHeader, LoopPlan,
    LoweredBlock, LoweredStatement, SelectArmPlan, SelectStatementPlan, SwitchCasePlan, SwitchKind,
    SwitchStatementPlan,
};
use crate::go_expression::{CompositeElement, GoExpressionNode, GoParameter};
use crate::model::{
    opt_text, stmt_list_view, expr_list_view, header_view, texts, ArmView, AssignView, CaseView, CompoundView, ConstView, DefView,
    ElementView, ElseView, ExprView, HeaderView, IfView, LoopView, NodeView, ParamView,
    SelectView, StmtView, SwitchKindView, SwitchView, ValueView,
};
use crate::values::{GoExpression, ValuePlan};
use vstd::prelude::*;
use vstd::pervasive::VecAdditionalExecFns;

verus! {

/// A renaming: the new name of each name it renames, `None` for a name it
/// keeps.
pub type Renaming = spec_fn(Seq<char>) -> Option<Seq<char>>;

/// The closure renames names as `g` does.
pub open spec fn renames_like<F: Fn(&str) -> Option<String>>(rename: F, g: Renaming) -> bool {
    forall|s: &str, r: Option<String>| #[trigger] rename.ensures((s,), r) ==> opt_text(r) == g(s@)
}

/// The closure can be called on any name.
pub open spec fn renames_anything<F: Fn(&str) -> Option<String>>(rename: F) -> bool {
    forall|s: &str| #[trigger] rename.requires((s,))
}

pub open spec fn opt_expr_view(e: &Option<GoExpression>) -> Option<ExprView> {
    match e {
        Some(e) => Some(e@),
        None => None,
    }
}

pub open spec fn renamed_text(g: Renaming, name: Seq<char>) -> Seq<char> {
    match g(name) {
        Some(t) => t,
        None => name,
    }
}

pub open spec fn opt_renamed_text(g: Renaming, name: Option<Seq<char>>) -> Option<Seq<char>> {
    match name {
        Some(n) => Some(renamed_text(g, n)),
        None => None,
    }
}

pub open spec fn names_renamed(g: Renaming, names: Seq<Seq<char>>) -> Seq<Seq<char>> {
    Seq::new(names.len(), |i: int| renamed_text(g, names[i]))
}

// ---------------------------------------------------------------------------
// Renamed trees
// ---------------------------------------------------------------------------

pub open spec fn element_renamed(e: ElementView, g: Renaming) -> ElementView
    decreases e,
{
    ElementView {
        key: match e.key {
            Some(k) => Some(node_renamed(k, g)),
            None => None,
        },
        value: node_renamed(e.value, g),
    }
}

pub open spec fn opt_node_renamed(n: Option<Box<NodeView>>, g: Renaming) -> Option<Box<NodeView>>
    decreases n,
{
    match n {
        Some(b) => Some(Box::new(node_renamed(*b, g))),
        None => None,
    }
}

/// The node with every identifier renamed; inside a function literal its
/// parameters and body too.
pub open spec fn node_renamed(n: NodeView, g: Renaming) -> NodeView
    decreases n,
{
    match n {
        NodeView::Identifier(t) => NodeView::Identifier(renamed_text(g, t)),
        NodeView::CompositeLiteral { go_type, elements, layout } => NodeView::CompositeLiteral {
            go_type,
            elements: Seq::new(
                elements.len(),
                |i: int|
                    if 0 <= i < elements.len() {
                        element_renamed(elements[i], g)
                    } else {
                        ElementView { key: None, value: NodeView::Empty }
                    },
            ),
            layout,
        },
        NodeView::Call { callee, arguments } => NodeView::Call {
            callee: Box::new(node_renamed(*callee, g)),
            arguments: Seq::new(
                arguments.len(),
                |i: int|
                    if 0 <= i < arguments.len() {
                        node_renamed(arguments[i], g)
                    } else {
                        NodeView::Empty
                    },
            ),
        },
        NodeView::Instantiation { base, type_arguments } => NodeView::Instantiation {
            base: Box::new(node_renamed(*base, g)),
            type_arguments,
        },
        NodeView::Selector { base, field } => NodeView::Selector {
            base: Box::new(node_renamed(*base, g)),
            field,
        },
        NodeView::Index { base, index } => NodeView::Index {
            base: Box::new(node_renamed(*base, g)),
            index: Box::new(node_renamed(*index, g)),
        },
        NodeView::Slice { base, low, high, max } => NodeView::Slice {
            base: Box::new(node_renamed(*base, g)),
            low: opt_node_renamed(low, g),
            high: opt_node_renamed(high, g),
            max: opt_node_renamed(max, g),
        },
        NodeView::TypeAssertion { base, go_type } => NodeView::TypeAssertion {
            base: Box::new(node_renamed(*base, g)),
            go_type,
        },
        NodeView::Unary { operator, operand } => NodeView::Unary {
            operator,
            operand: Box::new(node_renamed(*operand, g)),
        },
        NodeView::AddressOf(operand) => NodeView::AddressOf(Box::new(node_renamed(*operand, g))),
        NodeView::Dereference(operand) => NodeView::Dereference(Box::new(node_renamed(*operand, g))),
        NodeView::Binary { operator, left, right } => NodeView::Binary {
            operator,
            left: Box::new(node_renamed(*left, g)),
            right: Box::new(node_renamed(*right, g)),
        },
        NodeView::Conversion { go_type, operand } => NodeView::Conversion {
            go_type,
            operand: Box::new(node_renamed(*operand, g)),
        },
        NodeView::Spread(operand) => NodeView::Spread(Box::new(node_renamed(*operand, g))),
        NodeView::FunctionLiteral { parameters, result, body, layout } => NodeView::FunctionLiteral {
            parameters: Seq::new(
                parameters.len(),
                |i: int|
                    ParamView {
                        name: renamed_text(g, parameters[i].name),
                        go_type: parameters[i].go_type,
                    },
            ),
            result,
            body: stmts_renamed(body, g),
            layout,
        },
        _ => n,
    }
}

pub open spec fn expr_renamed(e: ExprView, g: Renaming) -> ExprView
    decreases e,
{
    ExprView { node: node_renamed(e.node, g), constant: e.constant }
}

pub open spec fn opt_expr_renamed(e: Option<ExprView>, g: Renaming) -> Option<ExprView>
    decreases e,
{
    match e {
        Some(e) => Some(expr_renamed(e, g)),
        None => None,
    }
}

pub open spec fn exprs_renamed(es: Seq<ExprView>, g: Renaming) -> Seq<ExprView>
    decreases es,
{
    Seq::new(
        es.len(),
        |i: int|
            if 0 <= i < es.len() {
                expr_renamed(es[i], g)
            } else {
                ExprView { node: NodeView::Empty, constant: None }
            },
    )
}

pub open spec fn stmts_renamed(body: Seq<StmtView>, g: Renaming) -> Seq<StmtView>
    decreases body,
{
    Seq::new(
        body.len(),
        |i: int|
            if 0 <= i < body.len() {
                stmt_renamed(body[i], g)
            } else {
                StmtView::UnreachablePanic
            },
    )
}

pub open spec fn def_renamed(d: DefView, g: Renaming) -> DefView
    decreases d,
{
    DefView { names: names_renamed(g, d.names), value: expr_renamed(d.value, g) }
}

pub open spec fn value_renamed(v: ValueView, g: Renaming) -> ValueView
    decreases v,
{
    ValueView {
        setup: stmts_renamed(v.setup, g),
        expression: expr_renamed(v.expression, g),
        evaluation: v.evaluation,
    }
}

pub open spec fn if_renamed(plan: IfView, g: Renaming) -> IfView
    decreases plan,
{
    IfView {
        condition_setup: stmts_renamed(plan.condition_setup, g),
        initializer: match plan.initializer {
            Some(d) => Some(def_renamed(d, g)),
            None => None,
        },
        condition: expr_renamed(plan.condition, g),
        then_body: stmts_renamed(plan.then_body, g),
        else_arm: else_renamed(plan.else_arm, g),
    }
}

pub open spec fn else_renamed(arm: ElseView, g: Renaming) -> ElseView
    decreases arm,
{
    match arm {
        ElseView::NoElse => ElseView::NoElse,
        ElseView::ElseIf(inner) => ElseView::ElseIf(Box::new(if_renamed(*inner, g))),
        ElseView::Else { body, inline } => ElseView::Else { body: stmts_renamed(body, g), inline },
    }
}

pub open spec fn header_renamed(header: HeaderView, g: Renaming) -> HeaderView
    decreases header,
{
    match header {
        HeaderView::Infinite => HeaderView::Infinite,
        HeaderView::While(c) => HeaderView::While(expr_renamed(c, g)),
        HeaderView::Range { key, value, iterable } => HeaderView::Range {
            key: opt_renamed_text(g, key),
            value: opt_renamed_text(g, value),
            iterable: expr_renamed(iterable, g),
        },
        HeaderView::Counted { variable, start, condition } => HeaderView::Counted {
            variable: renamed_text(g, variable),
            start: expr_renamed(start, g),
            condition: opt_expr_renamed(condition, g),
        },
    }
}

pub open spec fn loop_renamed(plan: LoopView, g: Renaming) -> LoopView
    decreases plan,
{
    LoopView {
        prologue: stmts_renamed(plan.prologue, g),
        kind: plan.kind,
        header: header_renamed(plan.header, g),
        body: stmts_renamed(plan.body, g),
    }
}

pub open spec fn assign_renamed(form: AssignView, g: Renaming) -> AssignView
    decreases form,
{
    match form {
        AssignView::Compound { target_capture, target, kind } => AssignView::Compound {
            target_capture: stmts_renamed(target_capture, g),
            target: expr_renamed(target, g),
            kind: match kind {
                CompoundView::OpAssign { op_text, rhs, pinned_left } => CompoundView::OpAssign {
                    op_text,
                    rhs: value_renamed(rhs, g),
                    pinned_left: opt_expr_renamed(pinned_left, g),
                },
                _ => kind,
            },
        },
        AssignView::Simple { target_capture, target, value } => AssignView::Simple {
            target_capture: stmts_renamed(target_capture, g),
            target: expr_renamed(target, g),
            value: value_renamed(value, g),
        },
    }
}

pub open spec fn arm_renamed(arm: ArmView, g: Renaming) -> ArmView
    decreases arm,
{
    match arm {
        ArmView::Receive { receive_vars, channel, body } => ArmView::Receive {
            receive_vars: opt_renamed_text(g, receive_vars),
            channel: expr_renamed(channel, g),
            body: stmts_renamed(body, g),
        },
        ArmView::Send { channel, value, body } => ArmView::Send {
            channel: expr_renamed(channel, g),
            value: expr_renamed(value, g),
            body: stmts_renamed(body, g),
        },
        ArmView::Default { body } => ArmView::Default { body: stmts_renamed(body, g) },
    }
}

pub open spec fn select_renamed(plan: SelectView, g: Renaming) -> SelectView
    decreases plan,
{
    SelectView {
        setup: stmts_renamed(plan.setup, g),
        retry_loop: plan.retry_loop,
        arms: Seq::new(
            plan.arms.len(),
            |i: int|
                if 0 <= i < plan.arms.len() {
                    arm_renamed(plan.arms[i], g)
                } else {
                    ArmView::Default { body: Seq::empty() }
                },
        ),
        postlude: stmts_renamed(plan.postlude, g),
    }
}

pub open spec fn case_renamed(case: CaseView, g: Renaming) -> CaseView
    decreases case,
{
    CaseView { labels: exprs_renamed(case.labels, g), body: stmts_renamed(case.body, g) }
}

pub open spec fn switch_renamed(plan: SwitchView, g: Renaming) -> SwitchView
    decreases plan,
{
    SwitchView {
        kind: match plan.kind {
            SwitchKindView::Conditional => SwitchKindView::Conditional,
            SwitchKindView::Value { subject } => SwitchKindView::Value {
                subject: expr_renamed(subject, g),
            },
            SwitchKindView::Type { subject, binding } => SwitchKindView::Type {
                subject: expr_renamed(subject, g),
                binding: opt_renamed_text(g, binding),
            },
        },
        cases: Seq::new(
            plan.cases.len(),
            |i: int|
                if 0 <= i < plan.cases.len() {
                    case_renamed(plan.cases[i], g)
                } else {
                    CaseView { labels: Seq::empty(), body: Seq::empty() }
                },
        ),
        default: match plan.default {
            Some(body) => Some(stmts_renamed(body, g)),
            None => None,
        },
        postlude: stmts_renamed(plan.postlude, g),
    }
}

/// The statement with every name it binds and every identifier it reads
/// renamed.
pub open spec fn stmt_renamed(s: StmtView, g: Renaming) -> StmtView
    decreases s,
{
    match s {
        StmtView::If(plan) => StmtView::If(if_renamed(plan, g)),
        StmtView::Loop(plan) => StmtView::Loop(loop_renamed(plan, g)),
        StmtView::Block(body) => StmtView::Block(stmts_renamed(body, g)),
        StmtView::Body(body) => StmtView::Body(stmts_renamed(body, g)),
        StmtView::WhileLet(body) => StmtView::WhileLet(stmts_renamed(body, g)),
        StmtView::Const(c) => StmtView::Const(
            ConstView {
                is_const: c.is_const,
                name: renamed_text(g, c.name),
                ty_str: c.ty_str,
                value: expr_renamed(c.value, g),
            },
        ),
        StmtView::Return(values) => StmtView::Return(exprs_renamed(values, g)),
        StmtView::Assign(form) => StmtView::Assign(assign_renamed(form, g)),
        StmtView::Async { keyword, call } => StmtView::Async {
            keyword,
            call: expr_renamed(call, g),
        },
        StmtView::Select(plan) => StmtView::Select(select_renamed(plan, g)),
        StmtView::Switch(plan) => StmtView::Switch(switch_renamed(plan, g)),
        StmtView::Define(d) => StmtView::Define(def_renamed(d, g)),
        StmtView::AssignMany { targets, value } => StmtView::AssignMany {
            targets: exprs_renamed(targets, g),
            value: expr_renamed(value, g),
        },
        StmtView::VarDecl { name, go_type, value } => StmtView::VarDecl {
            name: renamed_text(g, name),
            go_type,
            value: opt_expr_renamed(value, g),
        },
        StmtView::Discard(e) => StmtView::Discard(expr_renamed(e, g)),
        StmtView::ExpressionStatement { expression, diverges } => StmtView::ExpressionStatement {
            expression: expr_renamed(expression, g),
            diverges,
        },
        StmtView::Directed { directive, inner } => StmtView::Directed {
            directive,
            inner: Box::new(stmt_renamed(*inner, g)),
        },
        _ => s,
    }
}

} // verus!

verus! {

// ---------------------------------------------------------------------------
// Renaming
// ---------------------------------------------------------------------------

/// The renaming the closure performs, where one describes it.
pub open spec fn renaming_of<F: Fn(&str) -> Option<String>>(rename: F) -> Renaming {
    choose|g: Renaming| renames_like(rename, g)
}

fn renamed_name<F: Fn(&str) -> Option<String>>(name: String, rename: &F, Ghost(g): Ghost<Renaming>) -> (r: String)
    requires
        renames_anything(*rename),
    ensures
        renames_like(*rename, g) ==> r@ == renamed_text(g, name@),
{
    match rename(name.as_str()) {
        Some(new_name) => new_name,
        None => name,
    }
}

fn renamed_opt_name<F: Fn(&str) -> Option<String>>(name: Option<String>, rename: &F, Ghost(g): Ghost<Renaming>) -> (r: Option<String>)
    requires
        renames_anything(*rename),
    ensures
        renames_like(*rename, g) ==> opt_text(r) == opt_renamed_text(g, opt_text(name)),
{
    match name {
        Some(n) => Some(renamed_name(n, rename, Ghost(g))),
        None => None,
    }
}

fn renamed_bound<F: Fn(&str) -> Option<String>>(bound: Option<Box<GoExpressionNode>>, rename: &F, Ghost(g): Ghost<Renaming>) -> (r: Option<Box<GoExpressionNode>>)
    requires
        renames_anything(*rename),
    ensures
        renames_like(*rename, g) ==> crate::model::bound_view(&r) == opt_node_renamed(crate::model::bound_view(&bound), g),
    decreases bound, 0nat,
{
    match bound {
        Some(b) => {
            let ghost bv = (*b)@;
            let n = renamed_node(*b, rename, Ghost(g));
            assert(renames_like(*rename, g) ==> n@ == node_renamed(bv, g));
            Some(Box::new(n))
        },
        None => None,
    }
}

fn renamed_element<F: Fn(&str) -> Option<String>>(element: CompositeElement, rename: &F, Ghost(g): Ghost<Renaming>) -> (r: CompositeElement)
    requires
        renames_anything(*rename),
    ensures
        renames_like(*rename, g) ==> r@ == element_renamed(element@, g),
    decreases element, 0nat,
{
    let ghost ev = element@;
    let CompositeElement { key, value } = element;
    let ghost vv = value@;
    let key = match key {
        Some(k) => {
            let ghost kv = k@;
            let n = renamed_node(k, rename, Ghost(g));
            assert(renames_like(*rename, g) ==> n@ == node_renamed(kv, g));
            Some(n)
        },
        None => None,
    };
    let value = renamed_node(value, rename, Ghost(g));
    let r = CompositeElement { key, value };
    assert(renames_like(*rename, g) ==> r@ == element_renamed(ev, g));
    r
}

/// The node with every identifier renamed, function literals included.
#[verifier::loop_isolation(false)]
fn renamed_node<F: Fn(&str) -> Option<String>>(node: GoExpressionNode, rename: &F, Ghost(g): Ghost<Renaming>) -> (r: GoExpressionNode)
    requires
        renames_anything(*rename),
    ensures
        renames_like(*rename, g) ==> r@ == node_renamed(node@, g),
    decreases node, 0nat,
{
    let ghost whole = node;
    let ghost wv = node@;
    match node {
        GoExpressionNode::Identifier(name) => {
            assert(wv == NodeView::Identifier(name@));
            GoExpressionNode::Identifier(renamed_name(name, rename, Ghost(g)))
        },
        GoExpressionNode::CompositeLiteral { go_type, elements, layout } => {
            let ghost before = elements;
            let mut elements = elements;
            let mut i: usize = 0;
            while i < elements.len()
                invariant
                    elements@.len() == before@.len(),
                    i <= elements@.len(),
                    forall|j: int| i <= j < elements@.len() ==> #[trigger] elements@[j] == before@[j],
                    renames_like(*rename, g) ==> forall|j: int| 0 <= j < i ==> #[trigger] elements@[j]@ == element_renamed(before@[j]@, g),
                decreases elements@.len() - i,
            {
                let mut item = CompositeElement { key: None, value: GoExpressionNode::Empty };
                elements.set_and_swap(i, &mut item);
                proof {
                    assert(decreases_to!(whole => whole->CompositeLiteral_elements));
                    assert(decreases_to!(before => before[i as int]));
                    assert(decreases_to!(whole => item));
                }
                let mut item = renamed_element(item, rename, Ghost(g));
                elements.set_and_swap(i, &mut item);
                i = i + 1;
            }
            let r = GoExpressionNode::CompositeLiteral { go_type, elements, layout };
            proof {
                if renames_like(*rename, g) {
                    let renamed = node_renamed(wv, g);
                    assert forall|j: int| 0 <= j < elements@.len() implies #[trigger] r@->CompositeLiteral_elements[j]
                        == renamed->CompositeLiteral_elements[j] by {
                        assert(r@->CompositeLiteral_elements[j] == elements@[j]@);
                        assert(wv->CompositeLiteral_elements[j] == before@[j]@);
                    }
                    assert(r@->CompositeLiteral_elements =~= renamed->CompositeLiteral_elements);
                }
            }
            r
        },
        GoExpressionNode::Call { callee, arguments } => {
            let ghost cv = (*callee)@;
            let callee = Box::new(renamed_node(*callee, rename, Ghost(g)));
            let ghost before = arguments;
            let mut arguments = arguments;
            let mut i: usize = 0;
            while i < arguments.len()
                invariant
                    arguments@.len() == before@.len(),
                    i <= arguments@.len(),
                    forall|j: int| i <= j < arguments@.len() ==> #[trigger] arguments@[j] == before@[j],
                    renames_like(*rename, g) ==> forall|j: int| 0 <= j < i ==> #[trigger] arguments@[j]@ == node_renamed(before@[j]@, g),
                decreases arguments@.len() - i,
            {
                let mut item = GoExpressionNode::Empty;
                arguments.set_and_swap(i, &mut item);
                proof {
                    assert(decreases_to!(whole => whole->Call_arguments));
                    assert(decreases_to!(before => before[i as int]));
                    assert(decreases_to!(whole => item));
                }
                let mut item = renamed_node(item, rename, Ghost(g));
                arguments.set_and_swap(i, &mut item);
                i = i + 1;
            }
            let r = GoExpressionNode::Call { callee, arguments };
            proof {
                if renames_like(*rename, g) {
                    let renamed = node_renamed(wv, g);
                    assert forall|j: int| 0 <= j < arguments@.len() implies #[trigger] r@->Call_arguments[j]
                        == renamed->Call_arguments[j] by {
                        assert(r@->Call_arguments[j] == arguments@[j]@);
                        assert(wv->Call_arguments[j] == before@[j]@);
                    }
                    assert(r@->Call_arguments =~= renamed->Call_arguments);
                    assert(renamed->Call_callee == Box::new(node_renamed(cv, g)));
                }
            }
            r
        },
        GoExpressionNode::FunctionLiteral { parameters, result, body, layout } => {
            let ghost pv = wv->FunctionLiteral_parameters;
            let ghost bv = body@;
            assert(wv->FunctionLiteral_body == bv);
            let ghost before = parameters;
            let mut parameters = parameters;
            let mut i: usize = 0;
            while i < parameters.len()
                invariant
                    parameters@.len() == before@.len(),
                    i <= parameters@.len(),
                    forall|j: int| i <= j < parameters@.len() ==> #[trigger] parameters@[j] == before@[j],
                    renames_like(*rename, g) ==> forall|j: int| 0 <= j < i ==> #[trigger] parameters@[j].name@ == renamed_text(g, before@[j].name@),
                    forall|j: int| 0 <= j < i ==> #[trigger] parameters@[j].go_type == before@[j].go_type,
                decreases parameters@.len() - i,
            {
                let mut item = GoParameter { name: String::new(), go_type: String::new() };
                parameters.set_and_swap(i, &mut item);
                let GoParameter { name, go_type } = item;
                let mut item = GoParameter { name: renamed_name(name, rename, Ghost(g)), go_type };
                parameters.set_and_swap(i, &mut item);
                i = i + 1;
            }
            proof {
                assert(decreases_to!(whole => whole->FunctionLiteral_body));
            }
            let body = renamed_block(body, rename, Ghost(g));
            let r = GoExpressionNode::FunctionLiteral { parameters, result, body, layout };
            proof {
                if renames_like(*rename, g) {
                    let renamed = node_renamed(wv, g);
                    assert(r@->FunctionLiteral_parameters =~= renamed->FunctionLiteral_parameters);
                }
            }
            r
        },
        GoExpressionNode::Instantiation { base, type_arguments } => {
            let ghost b = (*base)@;
            GoExpressionNode::Instantiation { base: Box::new(renamed_node(*base, rename, Ghost(g))), type_arguments }
        },
        GoExpressionNode::Selector { base, field } => {
            let ghost b = (*base)@;
            GoExpressionNode::Selector { base: Box::new(renamed_node(*base, rename, Ghost(g))), field }
        },
        GoExpressionNode::Index { base, index } => {
            let ghost b = (*base)@;
            let ghost x = (*index)@;
            GoExpressionNode::Index {
                base: Box::new(renamed_node(*base, rename, Ghost(g))),
                index: Box::new(renamed_node(*index, rename, Ghost(g))),
            }
        },
        GoExpressionNode::Slice { base, low, high, max } => {
            let ghost b = (*base)@;
            GoExpressionNode::Slice {
                base: Box::new(renamed_node(*base, rename, Ghost(g))),
                low: renamed_bound(low, rename, Ghost(g)),
                high: renamed_bound(high, rename, Ghost(g)),
                max: renamed_bound(max, rename, Ghost(g)),
            }
        },
        GoExpressionNode::TypeAssertion { base, go_type } => {
            let ghost b = (*base)@;
            GoExpressionNode::TypeAssertion { base: Box::new(renamed_node(*base, rename, Ghost(g))), go_type }
        },
        GoExpressionNode::Unary { operator, operand } => {
            let ghost o = (*operand)@;
            GoExpressionNode::Unary { operator, operand: Box::new(renamed_node(*operand, rename, Ghost(g))) }
        },
        GoExpressionNode::AddressOf(operand) => {
            let ghost o = (*operand)@;
            GoExpressionNode::AddressOf(Box::new(renamed_node(*operand, rename, Ghost(g))))
        },
        GoExpressionNode::Dereference(operand) => {
            let ghost o = (*operand)@;
            GoExpressionNode::Dereference(Box::new(renamed_node(*operand, rename, Ghost(g))))
        },
        GoExpressionNode::Binary { operator, left, right } => {
            let ghost l = (*left)@;
            let ghost x = (*right)@;
            GoExpressionNode::Binary {
                operator,
                left: Box::new(renamed_node(*left, rename, Ghost(g))),
                right: Box::new(renamed_node(*right, rename, Ghost(g))),
            }
        },
        GoExpressionNode::Conversion { go_type, operand } => {
            let ghost o = (*operand)@;
            GoExpressionNode::Conversion { go_type, operand: Box::new(renamed_node(*operand, rename, Ghost(g))) }
        },
        GoExpressionNode::Spread(operand) => {
            let ghost o = (*operand)@;
            GoExpressionNode::Spread(Box::new(renamed_node(*operand, rename, Ghost(g))))
        },
        other => other,
    }
}

fn renamed_block<F: Fn(&str) -> Option<String>>(block: LoweredBlock, rename: &F, Ghost(g): Ghost<Renaming>) -> (r: LoweredBlock)
    requires
        renames_anything(*rename),
    ensures
        renames_like(*rename, g) ==> r@ == stmts_renamed(block@, g),
    decreases block, 1nat,
{
    LoweredBlock { statements: renamed_statements(block.statements, rename, Ghost(g)) }
}

#[verifier::loop_isolation(false)]
fn renamed_statements<F: Fn(&str) -> Option<String>>(statements: Vec<LoweredStatement>, rename: &F, Ghost(g): Ghost<Renaming>) -> (r: Vec<LoweredStatement>)
    requires
        renames_anything(*rename),
    ensures
        renames_like(*rename, g) ==> stmt_list_view(&r) == stmts_renamed(stmt_list_view(&statements), g),
    decreases statements, 0nat,
{
    let ghost before = statements;
    let mut statements = statements;
    let mut i: usize = 0;
    while i < statements.len()
        invariant
            statements@.len() == before@.len(),
            i <= statements@.len(),
            forall|j: int| i <= j < statements@.len() ==> #[trigger] statements@[j] == before@[j],
            renames_like(*rename, g) ==> forall|j: int| 0 <= j < i ==> #[trigger] statements@[j]@ == stmt_renamed(before@[j]@, g),
        decreases statements@.len() - i,
    {
        let mut item = LoweredStatement::UnreachablePanic;
        statements.set_and_swap(i, &mut item);
        proof {
            assert(decreases_to!(before => before[i as int]));
        }
        let mut item = renamed_statement(item, rename, Ghost(g));
        statements.set_and_swap(i, &mut item);
        i = i + 1;
    }
    proof {
        if renames_like(*rename, g) {
            let target = stmts_renamed(stmt_list_view(&before), g);
            assert forall|j: int| 0 <= j < statements@.len() implies #[trigger] stmt_list_view(&statements)[j] == target[j] by {
                assert(stmt_list_view(&statements)[j] == statements@[j]@);
                assert(stmt_list_view(&before)[j] == before@[j]@);
            }
            assert(stmt_list_view(&statements) =~= target);
        }
    }
    statements
}

fn renamed_expr<F: Fn(&str) -> Option<String>>(e: GoExpression, rename: &F, Ghost(g): Ghost<Renaming>) -> (r: GoExpression)
    requires
        renames_anything(*rename),
    ensures
        renames_like(*rename, g) ==> r@ == expr_renamed(e@, g),
    decreases e, 1nat,
{
    GoExpression { node: renamed_node(e.node, rename, Ghost(g)), constant: e.constant }
}

fn renamed_opt_expr<F: Fn(&str) -> Option<String>>(e: Option<GoExpression>, rename: &F, Ghost(g): Ghost<Renaming>) -> (r: Option<GoExpression>)
    requires
        renames_anything(*rename),
    ensures
        renames_like(*rename, g) ==> opt_expr_view(&r) == opt_expr_renamed(opt_expr_view(&e), g),
    decreases e, 2nat,
{
    match e {
        Some(e) => Some(renamed_expr(e, rename, Ghost(g))),
        None => None,
    }
}

#[verifier::loop_isolation(false)]
fn renamed_exprs<F: Fn(&str) -> Option<String>>(es: Vec<GoExpression>, rename: &F, Ghost(g): Ghost<Renaming>) -> (r: Vec<GoExpression>)
    requires
        renames_anything(*rename),
    ensures
        renames_like(*rename, g) ==> expr_list_view(&r) == exprs_renamed(expr_list_view(&es), g),
    decreases es, 0nat,
{
    let ghost before = es;
    let mut es = es;
    let mut i: usize = 0;
    while i < es.len()
        invariant
            es@.len() == before@.len(),
            i <= es@.len(),
            forall|j: int| i <= j < es@.len() ==> #[trigger] es@[j] == before@[j],
            renames_like(*rename, g) ==> forall|j: int| 0 <= j < i ==> #[trigger] es@[j]@ == expr_renamed(before@[j]@, g),
        decreases es@.len() - i,
    {
        let mut item = GoExpression { node: GoExpressionNode::Empty, constant: None };
        es.set_and_swap(i, &mut item);
        proof {
            assert(decreases_to!(before => before[i as int]));
        }
        let mut item = renamed_expr(item, rename, Ghost(g));
        es.set_and_swap(i, &mut item);
        i = i + 1;
    }
    proof {
        if renames_like(*rename, g) {
            let target = exprs_renamed(expr_list_view(&before), g);
            assert forall|j: int| 0 <= j < es@.len() implies #[trigger] expr_list_view(&es)[j] == target[j] by {
                assert(expr_list_view(&es)[j] == es@[j]@);
                assert(expr_list_view(&before)[j] == before@[j]@);
            }
            assert(expr_list_view(&es) =~= target);
        }
    }
    es
}

fn renamed_names<F: Fn(&str) -> Option<String>>(names: Vec<String>, rename: &F, Ghost(g): Ghost<Renaming>) -> (r: Vec<String>)
    requires
        renames_anything(*rename),
    ensures
        renames_like(*rename, g) ==> texts(r@) == names_renamed(g, texts(names@)),
{
    let ghost before = names;
    let mut names = names;
    let mut i: usize = 0;
    while i < names.len()
        invariant
            renames_anything(*rename),
            names@.len() == before@.len(),
            i <= names@.len(),
            forall|j: int| i <= j < names@.len() ==> #[trigger] names@[j] == before@[j],
            renames_like(*rename, g) ==> forall|j: int| 0 <= j < i ==> #[trigger] names@[j]@ == renamed_text(g, before@[j]@),
        decreases names@.len() - i,
    {
        let mut item = String::new();
        names.set_and_swap(i, &mut item);
        let mut item = renamed_name(item, rename, Ghost(g));
        names.set_and_swap(i, &mut item);
        i = i + 1;
    }
    proof {
        if renames_like(*rename, g) {
            assert(texts(names@) =~= names_renamed(g, texts(before@)));
        }
    }
    names
}

fn renamed_definition<F: Fn(&str) -> Option<String>>(d: Definition, rename: &F, Ghost(g): Ghost<Renaming>) -> (r: Definition)
    requires
        renames_anything(*rename),
    ensures
        renames_like(*rename, g) ==> r@ == def_renamed(d@, g),
    decreases d, 2nat,
{
    let ghost dv = d@;
    let Definition { names, value } = d;
    let names = renamed_names(names, rename, Ghost(g));
    let value = renamed_expr(value, rename, Ghost(g));
    let r = Definition { names, value };
    assert(r@ == DefView { names: texts(r.names@), value: r.value@ });
    r
}

fn renamed_value<F: Fn(&str) -> Option<String>>(v: ValuePlan, rename: &F, Ghost(g): Ghost<Renaming>) -> (r: ValuePlan)
    requires
        renames_anything(*rename),
    ensures
        renames_like(*rename, g) ==> r@ == value_renamed(v@, g),
    decreases v, 2nat,
{
    let ValuePlan { setup, expression, evaluation } = v;
    let setup = renamed_statements(setup, rename, Ghost(g));
    let expression = renamed_expr(expression, rename, Ghost(g));
    ValuePlan { setup, expression, evaluation }
}

fn renamed_if<F: Fn(&str) -> Option<String>>(plan: IfPlan, rename: &F, Ghost(g): Ghost<Renaming>) -> (r: IfPlan)
    requires
        renames_anything(*rename),
    ensures
        renames_like(*rename, g) ==> r@ == if_renamed(plan@, g),
    decreases plan, 2nat,
{
    let ghost pv = plan@;
    let ghost whole = plan;
    let IfPlan { condition_setup, initializer, condition, then_body, else_arm } = plan;
    let ghost init_view = match &initializer {
        Some(d) => Some(d@),
        None => None,
    };
    assert(pv.initializer == init_view);
    let condition_setup = renamed_statements(condition_setup, rename, Ghost(g));
    let initializer = match initializer {
        Some(d) => Some(renamed_definition(d, rename, Ghost(g))),
        None => None,
    };
    let condition = renamed_expr(condition, rename, Ghost(g));
    let then_body = renamed_block(then_body, rename, Ghost(g));
    proof {
        assert(decreases_to!(whole => whole.else_arm));
    }
    let else_arm = renamed_else(else_arm, rename, Ghost(g));
    let r = IfPlan { condition_setup, initializer, condition, then_body, else_arm };
    assert(r@.initializer == match &r.initializer {
        Some(d) => Some(d@),
        None => None,
    });
    r
}

fn renamed_else<F: Fn(&str) -> Option<String>>(arm: ElseArm, rename: &F, Ghost(g): Ghost<Renaming>) -> (r: ElseArm)
    requires
        renames_anything(*rename),
    ensures
        renames_like(*rename, g) ==> r.view_else() == else_renamed(arm.view_else(), g),
    decreases arm, 0nat,
{
    match arm {
        ElseArm::NoElse => ElseArm::NoElse,
        ElseArm::ElseIf(inner) => {
            let ghost iv = (*inner)@;
            let inner = renamed_if(*inner, rename, Ghost(g));
            ElseArm::ElseIf(Box::new(inner))
        },
        ElseArm::Else { body, inline } => ElseArm::Else { body: renamed_block(body, rename, Ghost(g)), inline },
    }
}

fn renamed_header<F: Fn(&str) -> Option<String>>(header: LoopHeader, rename: &F, Ghost(g): Ghost<Renaming>) -> (r: LoopHeader)
    requires
        renames_anything(*rename),
    ensures
        renames_like(*rename, g) ==> header_view(&r) == header_renamed(header_view(&header), g),
    decreases header, 3nat,
{
    match header {
        LoopHeader::Infinite => LoopHeader::Infinite,
        LoopHeader::While(c) => LoopHeader::While(renamed_expr(c, rename, Ghost(g))),
        LoopHeader::Range { key, value, iterable } => LoopHeader::Range {
            key: renamed_opt_name(key, rename, Ghost(g)),
            value: renamed_opt_name(value, rename, Ghost(g)),
            iterable: renamed_expr(iterable, rename, Ghost(g)),
        },
        LoopHeader::Counted { variable, start, condition } => LoopHeader::Counted {
            variable: renamed_name(variable, rename, Ghost(g)),
            start: renamed_expr(start, rename, Ghost(g)),
            condition: renamed_opt_expr(condition, rename, Ghost(g)),
        },
    }
}

fn renamed_loop<F: Fn(&str) -> Option<String>>(plan: LoopPlan, rename: &F, Ghost(g): Ghost<Renaming>) -> (r: LoopPlan)
    requires
        renames_anything(*rename),
    ensures
        renames_like(*rename, g) ==> r.view_loop() == loop_renamed(plan.view_loop(), g),
    decreases plan, 0nat,
{
    let ghost pv = plan.view_loop();
    assert(pv.header == header_view(&plan.header));
    let LoopPlan { prologue, kind, header, body } = plan;
    let prologue = renamed_statements(prologue, rename, Ghost(g));
    let header = renamed_header(header, rename, Ghost(g));
    let body = renamed_block(body, rename, Ghost(g));
    let r = LoopPlan { prologue, kind, header, body };
    assert(r.view_loop().header == header_view(&r.header));
    r
}

fn renamed_assign<F: Fn(&str) -> Option<String>>(form: AssignForm, rename: &F, Ghost(g): Ghost<Renaming>) -> (r: AssignForm)
    requires
        renames_anything(*rename),
    ensures
        renames_like(*rename, g) ==> r.view_assign() == assign_renamed(form.view_assign(), g),
    decreases form, 0nat,
{
    match form {
        AssignForm::Compound { target_capture, target, kind } => {
            let ghost kv = kind.view_compound();
            let target_capture = renamed_statements(target_capture, rename, Ghost(g));
            let target = renamed_expr(target, rename, Ghost(g));
            let kind = match kind {
                CompoundKind::OpAssign { op_text, rhs, pinned_left } => {
                    let ghost rv = (*rhs)@;
                    let ghost lv = opt_expr_view(&pinned_left);
                    assert(kv == CompoundView::OpAssign { op_text: op_text@, rhs: rv, pinned_left: lv });
                    let rhs = renamed_value(*rhs, rename, Ghost(g));
                    let pinned_left = renamed_opt_expr(pinned_left, rename, Ghost(g));
                    let k = CompoundKind::OpAssign { op_text, rhs: Box::new(rhs), pinned_left };
                    assert(k.view_compound() == CompoundView::OpAssign {
                        op_text: op_text@,
                        rhs: rhs@,
                        pinned_left: opt_expr_view(&pinned_left),
                    });
                    k
                },
                other => other,
            };
            AssignForm::Compound { target_capture, target, kind }
        },
        AssignForm::Simple { target_capture, target, value } => AssignForm::Simple {
            target_capture: renamed_statements(target_capture, rename, Ghost(g)),
            target: renamed_expr(target, rename, Ghost(g)),
            value: renamed_value(value, rename, Ghost(g)),
        },
    }
}

fn renamed_arm<F: Fn(&str) -> Option<String>>(arm: SelectArmPlan, rename: &F, Ghost(g): Ghost<Renaming>) -> (r: SelectArmPlan)
    requires
        renames_anything(*rename),
    ensures
        renames_like(*rename, g) ==> r.view_arm() == arm_renamed(arm.view_arm(), g),
    decreases arm, 0nat,
{
    match arm {
        SelectArmPlan::Receive { receive_vars, channel, body } => SelectArmPlan::Receive {
            receive_vars: renamed_opt_name(receive_vars, rename, Ghost(g)),
            channel: renamed_expr(channel, rename, Ghost(g)),
            body: renamed_block(body, rename, Ghost(g)),
        },
        SelectArmPlan::Send { channel, value, body } => SelectArmPlan::Send {
            channel: renamed_expr(channel, rename, Ghost(g)),
            value: renamed_expr(value, rename, Ghost(g)),
            body: renamed_block(body, rename, Ghost(g)),
        },
        SelectArmPlan::Default { body } => SelectArmPlan::Default { body: renamed_block(body, rename, Ghost(g)) },
    }
}

#[verifier::loop_isolation(false)]
fn renamed_select<F: Fn(&str) -> Option<String>>(plan: SelectStatementPlan, rename: &F, Ghost(g): Ghost<Renaming>) -> (r: SelectStatementPlan)
    requires
        renames_anything(*rename),
    ensures
        renames_like(*rename, g) ==> r.view_select() == select_renamed(plan.view_select(), g),
    decreases plan, 0nat,
{
    let ghost whole = plan;
    let ghost pv = plan.view_select();
    let SelectStatementPlan { setup, retry_loop, arms, postlude } = plan;
    let setup = renamed_statements(setup, rename, Ghost(g));
    let ghost before = arms;
    let mut arms = arms;
    let mut i: usize = 0;
    while i < arms.len()
        invariant
            arms@.len() == before@.len(),
            i <= arms@.len(),
            forall|j: int| i <= j < arms@.len() ==> #[trigger] arms@[j] == before@[j],
            renames_like(*rename, g) ==> forall|j: int| 0 <= j < i ==> #[trigger] arms@[j].view_arm() == arm_renamed(before@[j].view_arm(), g),
        decreases arms@.len() - i,
    {
        let mut item = SelectArmPlan::Default { body: LoweredBlock { statements: Vec::new() } };
        arms.set_and_swap(i, &mut item);
        proof {
            assert(decreases_to!(whole => whole.arms));
            assert(decreases_to!(before => before[i as int]));
            assert(decreases_to!(whole => item));
        }
        let mut item = renamed_arm(item, rename, Ghost(g));
        arms.set_and_swap(i, &mut item);
        i = i + 1;
    }
    let postlude = renamed_statements(postlude, rename, Ghost(g));
    let r = SelectStatementPlan { setup, retry_loop, arms, postlude };
    proof {
        if renames_like(*rename, g) {
            let target = select_renamed(pv, g).arms;
            assert forall|j: int| 0 <= j < arms@.len() implies #[trigger] r.view_select().arms[j] == target[j] by {
                assert(r.view_select().arms[j] == arms@[j].view_arm());
                assert(pv.arms[j] == before@[j].view_arm());
            }
            assert(r.view_select().arms =~= target);
        }
    }
    r
}

fn renamed_case<F: Fn(&str) -> Option<String>>(case: SwitchCasePlan, rename: &F, Ghost(g): Ghost<Renaming>) -> (r: SwitchCasePlan)
    requires
        renames_anything(*rename),
    ensures
        renames_like(*rename, g) ==> r.view_case() == case_renamed(case.view_case(), g),
    decreases case, 0nat,
{
    SwitchCasePlan {
        labels: renamed_exprs(case.labels, rename, Ghost(g)),
        body: renamed_block(case.body, rename, Ghost(g)),
    }
}

#[verifier::loop_isolation(false)]
fn renamed_switch<F: Fn(&str) -> Option<String>>(plan: SwitchStatementPlan, rename: &F, Ghost(g): Ghost<Renaming>) -> (r: SwitchStatementPlan)
    requires
        renames_anything(*rename),
    ensures
        renames_like(*rename, g) ==> r.view_switch() == switch_renamed(plan.view_switch(), g),
    decreases plan, 0nat,
{
    let ghost whole = plan;
    let ghost pv = plan.view_switch();
    let SwitchStatementPlan { kind, cases, default, postlude } = plan;
    let kind = match kind {
        SwitchKind::Conditional => SwitchKind::Conditional,
        SwitchKind::Value { subject } => SwitchKind::Value { subject: renamed_expr(subject, rename, Ghost(g)) },
        SwitchKind::Type { subject, binding } => SwitchKind::Type {
            subject: renamed_expr(subject, rename, Ghost(g)),
            binding: renamed_opt_name(binding, rename, Ghost(g)),
        },
    };
    let ghost before = cases;
    let mut cases = cases;
    let mut i: usize = 0;
    while i < cases.len()
        invariant
            cases@.len() == before@.len(),
            i <= cases@.len(),
            forall|j: int| i <= j < cases@.len() ==> #[trigger] cases@[j] == before@[j],
            renames_like(*rename, g) ==> forall|j: int| 0 <= j < i ==> #[trigger] cases@[j].view_case() == case_renamed(before@[j].view_case(), g),
        decreases cases@.len() - i,
    {
        let mut item = SwitchCasePlan { labels: Vec::new(), body: LoweredBlock { statements: Vec::new() } };
        cases.set_and_swap(i, &mut item);
        proof {
            assert(decreases_to!(whole => whole.cases));
            assert(decreases_to!(before => before[i as int]));
            assert(decreases_to!(whole => item));
        }
        let mut item = renamed_case(item, rename, Ghost(g));
        cases.set_and_swap(i, &mut item);
        i = i + 1;
    }
    let default = match default {
        Some(body) => Some(renamed_block(body, rename, Ghost(g))),
        None => None,
    };
    let postlude = renamed_statements(postlude, rename, Ghost(g));
    let r = SwitchStatementPlan { kind, cases, default, postlude };
    proof {
        if renames_like(*rename, g) {
            let target = switch_renamed(pv, g).cases;
            assert forall|j: int| 0 <= j < cases@.len() implies #[trigger] r.view_switch().cases[j] == target[j] by {
                assert(r.view_switch().cases[j] == cases@[j].view_case());
                assert(pv.cases[j] == before@[j].view_case());
            }
            assert(r.view_switch().cases =~= target);
        }
    }
    r
}

fn renamed_statement<F: Fn(&str) -> Option<String>>(statement: LoweredStatement, rename: &F, Ghost(g): Ghost<Renaming>) -> (r: LoweredStatement)
    requires
        renames_anything(*rename),
    ensures
        renames_like(*rename, g) ==> r@ == stmt_renamed(statement@, g),
    decreases statement, 1nat,
{
    let ghost sv = statement@;
    match statement {
        LoweredStatement::If(plan) => {
            assert(sv == StmtView::If(plan@));
            let plan = renamed_if(plan, rename, Ghost(g));
            let r = LoweredStatement::If(plan);
            assert(r@ == StmtView::If(plan@));
            r
        },
        LoweredStatement::Loop(plan) => LoweredStatement::Loop(renamed_loop(plan, rename, Ghost(g))),
        LoweredStatement::Block(body) => LoweredStatement::Block(renamed_block(body, rename, Ghost(g))),
        LoweredStatement::Body(body) => LoweredStatement::Body(renamed_block(body, rename, Ghost(g))),
        LoweredStatement::WhileLet(body) => LoweredStatement::WhileLet(renamed_block(body, rename, Ghost(g))),
        LoweredStatement::Const(plan) => {
            let ConstPlan { is_const, name, ty_str, value } = plan;
            LoweredStatement::Const(
                ConstPlan {
                    is_const,
                    name: renamed_name(name, rename, Ghost(g)),
                    ty_str,
                    value: renamed_expr(value, rename, Ghost(g)),
                },
            )
        },
        LoweredStatement::Return(values) => LoweredStatement::Return(renamed_exprs(values, rename, Ghost(g))),
        LoweredStatement::Assign(form) => LoweredStatement::Assign(renamed_assign(form, rename, Ghost(g))),
        LoweredStatement::Async { keyword, call } => LoweredStatement::Async {
            keyword,
            call: renamed_expr(call, rename, Ghost(g)),
        },
        LoweredStatement::Select(plan) => LoweredStatement::Select(renamed_select(plan, rename, Ghost(g))),
        LoweredStatement::Switch(plan) => LoweredStatement::Switch(renamed_switch(plan, rename, Ghost(g))),
        LoweredStatement::Define(d) => {
            assert(sv == StmtView::Define(d@));
            let d = renamed_definition(d, rename, Ghost(g));
            let r = LoweredStatement::Define(d);
            assert(r@ == StmtView::Define(d@));
            r
        },
        LoweredStatement::AssignMany { targets, value } => LoweredStatement::AssignMany {
            targets: renamed_exprs(targets, rename, Ghost(g)),
            value: renamed_expr(value, rename, Ghost(g)),
        },
        LoweredStatement::VarDecl { name, go_type, value } => LoweredStatement::VarDecl {
            name: renamed_name(name, rename, Ghost(g)),
            go_type,
            value: renamed_opt_expr(value, rename, Ghost(g)),
        },
        LoweredStatement::Discard(e) => LoweredStatement::Discard(renamed_expr(e, rename, Ghost(g))),
        LoweredStatement::ExpressionStatement { expression, diverges } => LoweredStatement::ExpressionStatement {
            expression: renamed_expr(expression, rename, Ghost(g)),
            diverges,
        },
        LoweredStatement::Directed { directive, inner } => {
            let ghost iv = (*inner)@;
            let inner = renamed_statement(*inner, rename, Ghost(g));
            LoweredStatement::Directed { directive, inner: Box::new(inner) }
        },
        other => other,
    }
}

} // verus!

verus! {

/// Renames, in place, every name the statements bind and every identifier
/// they read, through `rename`: a name it maps to `Some(new)` becomes `new`,
/// a name it maps to `None` stays.
pub fn rename_generated_names<F: Fn(&str) -> Option<String>>(statements: &mut Vec<LoweredStatement>, rename: &F)
    requires
        renames_anything(*rename),
    ensures
        renames_like(*rename, renaming_of(*rename)) ==> stmt_list_view(final(statements))
            == stmts_renamed(stmt_list_view(old(statements)), renaming_of(*rename)),
{
    visit_statements_mut(statements, rename);
}

/// The statements renamed in place.
pub fn visit_statements_mut<F: Fn(&str) -> Option<String>>(statements: &mut Vec<LoweredStatement>, rename: &F)
    requires
        renames_anything(*rename),
    ensures
        renames_like(*rename, renaming_of(*rename)) ==> stmt_list_view(final(statements))
            == stmts_renamed(stmt_list_view(old(statements)), renaming_of(*rename)),
{
    let mut taken: Vec<LoweredStatement> = Vec::new();
    std::mem::swap(statements, &mut taken);
    *statements = renamed_statements(taken, rename, Ghost(renaming_of(*rename)));
}

/// The expression renamed in place, function literals included.
pub fn visit_expression<F: Fn(&str) -> Option<String>>(node: &mut GoExpressionNode, rename: &F)
    requires
        renames_anything(*rename),
    ensures
        renames_like(*rename, renaming_of(*rename)) ==> final(node)@ == node_renamed(old(node)@, renaming_of(*rename)),
{
    let mut taken = GoExpressionNode::Empty;
    std::mem::swap(node, &mut taken);
    *node = renamed_node(taken, rename, Ghost(renaming_of(*rename)));
}

/// The definition's names and value renamed in place.
pub fn visit_definition<F: Fn(&str) -> Option<String>>(definition: &mut Definition, rename: &F)
    requires
        renames_anything(*rename),
    ensures
        renames_like(*rename, renaming_of(*rename)) ==> final(definition)@ == def_renamed(old(definition)@, renaming_of(*rename)),
{
    let mut taken = Definition { names: Vec::new(), value: GoExpression { node: GoExpressionNode::Empty, constant: None } };
    std::mem::swap(definition, &mut taken);
    *definition = renamed_definition(taken, rename, Ghost(renaming_of(*rename)));
}

/// The value's setup and expression renamed in place.
pub fn visit_value<F: Fn(&str) -> Option<String>>(value: &mut ValuePlan, rename: &F)
    requires
        renames_anything(*rename),
    ensures
        renames_like(*rename, renaming_of(*rename)) ==> final(value)@ == value_renamed(old(value)@, renaming_of(*rename)),
{
    let mut taken = ValuePlan {
        setup: Vec::new(),
        expression: GoExpression { node: GoExpressionNode::Empty, constant: None },
        evaluation: crate::values::EvaluationFacts {
            stability: crate::values::Stability::Literal,
            effect: crate::values::EvaluationEffect::Pure,
        },
    };
    std::mem::swap(value, &mut taken);
    *value = renamed_value(taken, rename, Ghost(renaming_of(*rename)));
}

/// The `if` statement renamed in place, its `else if` chain included.
pub fn visit_if<F: Fn(&str) -> Option<String>>(plan: &mut IfPlan, rename: &F)
    requires
        renames_anything(*rename),
    ensures
        renames_like(*rename, renaming_of(*rename)) ==> final(plan)@ == if_renamed(old(plan)@, renaming_of(*rename)),
{
    let mut taken = IfPlan {
        condition_setup: Vec::new(),
        initializer: None,
        condition: GoExpression { node: GoExpressionNode::Empty, constant: None },
        then_body: LoweredBlock { statements: Vec::new() },
        else_arm: ElseArm::NoElse,
    };
    std::mem::swap(plan, &mut taken);
    *plan = renamed_if(taken, rename, Ghost(renaming_of(*rename)));
}

/// The case's labels and body renamed in place.
pub fn visit_case<F: Fn(&str) -> Option<String>>(case: &mut SwitchCasePlan, rename: &F)
    requires
        renames_anything(*rename),
    ensures
        renames_like(*rename, renaming_of(*rename)) ==> final(case).view_case() == case_renamed(old(case).view_case(), renaming_of(*rename)),
{
    let mut taken = SwitchCasePlan { labels: Vec::new(), body: LoweredBlock { statements: Vec::new() } };
    std::mem::swap(case, &mut taken);
    *case = renamed_case(taken, rename, Ghost(renaming_of(*rename)));
}

} // verus!
