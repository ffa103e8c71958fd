//! Every expression of a tree in visiting order: a node before its children,
//! a function literal's body in place of its children, and statements in the
//! order they run.

use crate::bodies::{
    AssignForm, CompoundKind, ElseArm, IfPlan, LoopHeader, LoopPlan, LoweredBlock,
    LoweredStatement, SelectArmPlan, SelectStatementPlan, SwitchCasePlan, SwitchKind,
    SwitchStatementPlan,
};
use crate::go_expression::{CompositeElement, GoExpressionNode};
use crate::model::{
    stmt_list_view, ArmView, AssignView, CaseView, CompoundView, ElementView, ElseView, ExprView,
    HeaderView, IfView, LoopView, NodeView, SelectView, StmtView, SwitchKindView, SwitchView, ValueView,
};
use crate::values::{GoExpression, ValuePlan};
use vstd::prelude::*;

verus! {

// ---------------------------------------------------------------------------
// The visiting order
// ---------------------------------------------------------------------------

pub open spec fn opt_node_walk(node: Option<Box<NodeView>>) -> Seq<NodeView>
    decreases node, 0nat,
{
    match node {
        Some(n) => node_walk(*n),
        None => Seq::empty(),
    }
}

pub open spec fn element_walk(element: ElementView) -> Seq<NodeView>
    decreases element, 0nat,
{
    match element.key {
        Some(k) => node_walk(k) + node_walk(element.value),
        None => node_walk(element.value),
    }
}

pub open spec fn elements_walk(elements: Seq<ElementView>) -> Seq<NodeView>
    decreases elements, 0nat,
{
    if elements.len() == 0 {
        Seq::empty()
    } else {
        elements_walk(elements.drop_last()) + element_walk(elements.last())
    }
}

pub open spec fn nodes_walk(nodes: Seq<NodeView>) -> Seq<NodeView>
    decreases nodes, 0nat,
{
    if nodes.len() == 0 {
        Seq::empty()
    } else {
        nodes_walk(nodes.drop_last()) + node_walk(nodes.last())
    }
}

/// The walks of the node's direct children, in order.
pub open spec fn children_walk(node: NodeView) -> Seq<NodeView>
    decreases node, 1nat,
{
    match node {
        NodeView::CompositeLiteral { elements, .. } => elements_walk(elements),
        NodeView::Call { callee, arguments } => node_walk(*callee) + nodes_walk(arguments),
        NodeView::Instantiation { base, .. } => node_walk(*base),
        NodeView::Selector { base, .. } => node_walk(*base),
        NodeView::TypeAssertion { base, .. } => node_walk(*base),
        NodeView::Index { base, index } => node_walk(*base) + node_walk(*index),
        NodeView::Slice { base, low, high, max } => node_walk(*base) + opt_node_walk(low)
            + opt_node_walk(high) + opt_node_walk(max),
        NodeView::Unary { operand, .. } => node_walk(*operand),
        NodeView::Conversion { operand, .. } => node_walk(*operand),
        NodeView::AddressOf(operand) => node_walk(*operand),
        NodeView::Dereference(operand) => node_walk(*operand),
        NodeView::Spread(operand) => node_walk(*operand),
        NodeView::Binary { left, right, .. } => node_walk(*left) + node_walk(*right),
        _ => Seq::empty(),
    }
}

/// The node, then its children's walks, or a function literal's body.
pub open spec fn node_walk(node: NodeView) -> Seq<NodeView>
    decreases node, 2nat,
{
    seq![node] + (match node {
        NodeView::FunctionLiteral { body, .. } => stmts_walk(body),
        _ => children_walk(node),
    })
}

pub open spec fn exprs_walk(es: Seq<ExprView>) -> Seq<NodeView>
    decreases es, 0nat,
{
    if es.len() == 0 {
        Seq::empty()
    } else {
        exprs_walk(es.drop_last()) + node_walk(es.last().node)
    }
}

pub open spec fn opt_expr_walk(e: Option<ExprView>) -> Seq<NodeView>
    decreases e, 0nat,
{
    match e {
        Some(e) => node_walk(e.node),
        None => Seq::empty(),
    }
}

pub open spec fn stmts_walk(body: Seq<StmtView>) -> Seq<NodeView>
    decreases body, 0nat,
{
    if body.len() == 0 {
        Seq::empty()
    } else {
        stmts_walk(body.drop_last()) + stmt_walk(body.last())
    }
}

pub open spec fn value_walk(value: ValueView) -> Seq<NodeView>
    decreases value, 0nat,
{
    stmts_walk(value.setup) + node_walk(value.expression.node)
}

pub open spec fn if_walk(plan: IfView) -> Seq<NodeView>
    decreases plan, 0nat,
{
    stmts_walk(plan.condition_setup) + (match plan.initializer {
        Some(d) => node_walk(d.value.node),
        None => Seq::empty(),
    }) + node_walk(plan.condition.node) + stmts_walk(plan.then_body) + else_walk(plan.else_arm)
}

pub open spec fn else_walk(arm: ElseView) -> Seq<NodeView>
    decreases arm, 0nat,
{
    match arm {
        ElseView::NoElse => Seq::empty(),
        ElseView::ElseIf(inner) => if_walk(*inner),
        ElseView::Else { body, .. } => stmts_walk(body),
    }
}

pub open spec fn header_walk(header: HeaderView) -> Seq<NodeView>
    decreases header, 0nat,
{
    match header {
        HeaderView::Infinite => Seq::empty(),
        HeaderView::While(c) => node_walk(c.node),
        HeaderView::Range { iterable, .. } => node_walk(iterable.node),
        HeaderView::Counted { start, condition, .. } => node_walk(start.node) + opt_expr_walk(
            condition,
        ),
    }
}

pub open spec fn arm_walk(arm: ArmView) -> Seq<NodeView>
    decreases arm, 0nat,
{
    match arm {
        ArmView::Receive { channel, body, .. } => node_walk(channel.node) + stmts_walk(body),
        ArmView::Send { channel, value, body } => node_walk(channel.node) + node_walk(value.node)
            + stmts_walk(body),
        ArmView::Default { body } => stmts_walk(body),
    }
}

pub open spec fn arms_walk(arms: Seq<ArmView>) -> Seq<NodeView>
    decreases arms, 0nat,
{
    if arms.len() == 0 {
        Seq::empty()
    } else {
        arms_walk(arms.drop_last()) + arm_walk(arms.last())
    }
}

pub open spec fn case_walk(case: CaseView) -> Seq<NodeView>
    decreases case, 0nat,
{
    exprs_walk(case.labels) + stmts_walk(case.body)
}

pub open spec fn cases_walk(cases: Seq<CaseView>) -> Seq<NodeView>
    decreases cases, 0nat,
{
    if cases.len() == 0 {
        Seq::empty()
    } else {
        cases_walk(cases.drop_last()) + case_walk(cases.last())
    }
}

pub open spec fn assign_walk(form: AssignView) -> Seq<NodeView>
    decreases form, 0nat,
{
    match form {
        AssignView::Compound { target_capture, target, kind } => stmts_walk(target_capture)
            + node_walk(target.node) + (match kind {
            CompoundView::OpAssign { rhs, pinned_left, .. } => value_walk(rhs) + opt_expr_walk(
                pinned_left,
            ),
            _ => Seq::empty(),
        }),
        AssignView::Simple { target_capture, target, value } => stmts_walk(target_capture)
            + node_walk(target.node) + value_walk(value),
    }
}

pub open spec fn loop_walk(plan: LoopView) -> Seq<NodeView>
    decreases plan, 0nat,
{
    stmts_walk(plan.prologue) + header_walk(plan.header) + stmts_walk(plan.body)
}

pub open spec fn select_walk(plan: SelectView) -> Seq<NodeView>
    decreases plan, 0nat,
{
    stmts_walk(plan.setup) + arms_walk(plan.arms) + stmts_walk(plan.postlude)
}

pub open spec fn switch_walk(plan: SwitchView) -> Seq<NodeView>
    decreases plan, 0nat,
{
    (match plan.kind {
        SwitchKindView::Conditional => Seq::empty(),
        SwitchKindView::Value { subject } => node_walk(subject.node),
        SwitchKindView::Type { subject, .. } => node_walk(subject.node),
    }) + cases_walk(plan.cases) + (match plan.default {
        Some(body) => stmts_walk(body),
        None => Seq::empty(),
    }) + stmts_walk(plan.postlude)
}

/// The expressions of one statement in visiting order.
pub open spec fn stmt_walk(s: StmtView) -> Seq<NodeView>
    decreases s, 1nat,
{
    match s {
        StmtView::If(plan) => if_walk(plan),
        StmtView::Loop(plan) => loop_walk(plan),
        StmtView::Block(body) => stmts_walk(body),
        StmtView::Body(body) => stmts_walk(body),
        StmtView::WhileLet(body) => stmts_walk(body),
        StmtView::Const(c) => node_walk(c.value.node),
        StmtView::Return(values) => exprs_walk(values),
        StmtView::Assign(form) => assign_walk(form),
        StmtView::Async { call, .. } => node_walk(call.node),
        StmtView::Select(plan) => select_walk(plan),
        StmtView::Switch(plan) => switch_walk(plan),
        StmtView::Define(d) => node_walk(d.value.node),
        StmtView::AssignMany { targets, value } => exprs_walk(targets) + node_walk(value.node),
        StmtView::VarDecl { value, .. } => opt_expr_walk(value),
        StmtView::Discard(e) => node_walk(e.node),
        StmtView::ExpressionStatement { expression, .. } => node_walk(expression.node),
        StmtView::Directed { inner, .. } => stmt_walk(*inner),
        _ => Seq::empty(),
    }
}

/// The views of visited nodes.
pub open spec fn node_views(refs: Seq<&GoExpressionNode>) -> Seq<NodeView> {
    Seq::new(refs.len(), |i: int| refs[i]@)
}

pub proof fn lemma_node_views_add(a: Seq<&GoExpressionNode>, b: Seq<&GoExpressionNode>)
    ensures
        node_views(a + b) == node_views(a) + node_views(b),
{
    assert(node_views(a + b) =~= node_views(a) + node_views(b));
}

/// Appends `part` to `visited`.
fn extend<'a>(visited: &mut Vec<&'a GoExpressionNode>, part: Vec<&'a GoExpressionNode>)
    ensures
        node_views(final(visited)@) == node_views(old(visited)@) + node_views(part@),
{
    let mut part = part;
    proof {
        lemma_node_views_add(visited@, part@);
    }
    visited.append(&mut part);
}

} // verus!

verus! {

// ---------------------------------------------------------------------------
// Visiting expression trees
// ---------------------------------------------------------------------------

impl GoExpressionNode {
    /// The node and every node below it, a function literal's body included,
    /// in visiting order.
    pub fn visit<'a>(&'a self) -> (visited: Vec<&'a GoExpressionNode>)
        ensures
            node_views(visited@) == node_walk(self@),
        decreases self, 2nat,
    {
        let mut visited = vec![self];
        assert(node_views(visited@) =~= seq![self@]);
        let rest = match self {
            GoExpressionNode::FunctionLiteral { body, .. } => {
                proof {
                    assert(decreases_to!(*self => *body));
                    assert(decreases_to!(*body => body.statements));
                    assert(body@ == stmt_list_view(&body.statements));
                    assert(self@->FunctionLiteral_body == body@);
                }
                visit_statements(&body.statements)
            },
            _ => self.walk_children(),
        };
        extend(&mut visited, rest);
        visited
    }

    /// The walks of the node's direct children.
    fn walk_children<'a>(&'a self) -> (visited: Vec<&'a GoExpressionNode>)
        ensures
            node_views(visited@) == children_walk(self@),
        decreases self, 1nat,
    {
        match self {
            GoExpressionNode::CompositeLiteral { elements, .. } => {
                assert(Seq::new(elements@.len(), |i: int| elements@[i]@)
                    =~= self@->CompositeLiteral_elements);
                walk_elements(elements)
            },
            GoExpressionNode::Call { callee, arguments } => {
                let mut visited = callee.visit();
                assert(Seq::new(arguments@.len(), |i: int| arguments@[i]@) =~= self@->Call_arguments);
                let rest = walk_nodes(arguments);
                extend(&mut visited, rest);
                visited
            },
            GoExpressionNode::Instantiation { base, .. } => base.visit(),
            GoExpressionNode::Selector { base, .. } => base.visit(),
            GoExpressionNode::TypeAssertion { base, .. } => base.visit(),
            GoExpressionNode::Index { base, index } => {
                let mut visited = base.visit();
                let rest = index.visit();
                extend(&mut visited, rest);
                visited
            },
            GoExpressionNode::Slice { base, low, high, max } => {
                let mut visited = base.visit();
                let low_part = walk_bound(low);
                extend(&mut visited, low_part);
                let high_part = walk_bound(high);
                extend(&mut visited, high_part);
                let max_part = walk_bound(max);
                extend(&mut visited, max_part);
                visited
            },
            GoExpressionNode::Unary { operand, .. } => operand.visit(),
            GoExpressionNode::Conversion { operand, .. } => operand.visit(),
            GoExpressionNode::AddressOf(operand) => operand.visit(),
            GoExpressionNode::Dereference(operand) => operand.visit(),
            GoExpressionNode::Spread(operand) => operand.visit(),
            GoExpressionNode::Binary { left, right, .. } => {
                let mut visited = left.visit();
                let rest = right.visit();
                extend(&mut visited, rest);
                visited
            },
            _ => {
                let visited = Vec::new();
                assert(node_views(visited@) =~= Seq::<NodeView>::empty());
                visited
            },
        }
    }
}

fn walk_bound<'a>(bound: &'a Option<Box<GoExpressionNode>>) -> (visited: Vec<&'a GoExpressionNode>)
    ensures
        node_views(visited@) == opt_node_walk(crate::model::bound_view(bound)),
    decreases bound, 0nat,
{
    match bound {
        Some(b) => b.visit(),
        None => {
            let visited = Vec::new();
            assert(node_views(visited@) =~= Seq::<NodeView>::empty());
            visited
        },
    }
}

fn walk_element<'a>(element: &'a CompositeElement) -> (visited: Vec<&'a GoExpressionNode>)
    ensures
        node_views(visited@) == element_walk(element@),
    decreases element, 0nat,
{
    match &element.key {
        Some(key) => {
            let mut visited = key.visit();
            let rest = element.value.visit();
            extend(&mut visited, rest);
            visited
        },
        None => element.value.visit(),
    }
}

fn walk_elements<'a>(elements: &'a Vec<CompositeElement>) -> (visited: Vec<&'a GoExpressionNode>)
    ensures
        node_views(visited@) == elements_walk(Seq::new(elements@.len(), |i: int| elements@[i]@)),
    decreases elements, 0nat,
{
    let ghost ev = Seq::new(elements@.len(), |i: int| elements@[i]@);
    let mut visited: Vec<&'a GoExpressionNode> = Vec::new();
    assert(node_views(visited@) =~= Seq::<NodeView>::empty());
    let mut i: usize = 0;
    while i < elements.len()
        invariant
            ev == Seq::new(elements@.len(), |i: int| elements@[i]@),
            i <= elements@.len(),
            node_views(visited@) == elements_walk(ev.take(i as int)),
        decreases elements@.len() - i,
    {
        proof {
            assert(decreases_to!(*elements => elements[i as int]));
            assert(ev.take(i + 1).drop_last() =~= ev.take(i as int));
            assert(ev.take(i + 1).last() == ev[i as int]);
        }
        let part = walk_element(&elements[i]);
        extend(&mut visited, part);
        i = i + 1;
    }
    assert(ev.take(i as int) =~= ev);
    visited
}

fn walk_nodes<'a>(nodes: &'a Vec<GoExpressionNode>) -> (visited: Vec<&'a GoExpressionNode>)
    ensures
        node_views(visited@) == nodes_walk(Seq::new(nodes@.len(), |i: int| nodes@[i]@)),
    decreases nodes, 0nat,
{
    let ghost nv = Seq::new(nodes@.len(), |i: int| nodes@[i]@);
    let mut visited: Vec<&'a GoExpressionNode> = Vec::new();
    assert(node_views(visited@) =~= Seq::<NodeView>::empty());
    let mut i: usize = 0;
    while i < nodes.len()
        invariant
            nv == Seq::new(nodes@.len(), |i: int| nodes@[i]@),
            i <= nodes@.len(),
            node_views(visited@) == nodes_walk(nv.take(i as int)),
        decreases nodes@.len() - i,
    {
        proof {
            assert(decreases_to!(*nodes => nodes[i as int]));
            assert(nv.take(i + 1).drop_last() =~= nv.take(i as int));
            assert(nv.take(i + 1).last() == nv[i as int]);
        }
        let part = nodes[i].visit();
        extend(&mut visited, part);
        i = i + 1;
    }
    assert(nv.take(i as int) =~= nv);
    visited
}

// ---------------------------------------------------------------------------
// Visiting statements
// ---------------------------------------------------------------------------

/// Every expression of the statements in visiting order.
pub fn visit_statements<'a>(statements: &'a Vec<LoweredStatement>) -> (visited: Vec<
    &'a GoExpressionNode,
>)
    ensures
        node_views(visited@) == stmts_walk(stmt_list_view(statements)),
    decreases statements, 0nat,
{
    let ghost sv = stmt_list_view(statements);
    let mut visited: Vec<&'a GoExpressionNode> = Vec::new();
    assert(node_views(visited@) =~= Seq::<NodeView>::empty());
    let mut i: usize = 0;
    while i < statements.len()
        invariant
            sv == stmt_list_view(statements),
            sv.len() == statements@.len(),
            i <= statements@.len(),
            node_views(visited@) == stmts_walk(sv.take(i as int)),
        decreases statements@.len() - i,
    {
        proof {
            assert(decreases_to!(*statements => statements[i as int]));
            assert(sv.take(i + 1).drop_last() =~= sv.take(i as int));
            assert(sv.take(i + 1).last() == sv[i as int]);
        }
        let part = statements[i].visit_expressions();
        extend(&mut visited, part);
        i = i + 1;
    }
    assert(sv.take(i as int) =~= sv);
    visited
}

fn walk_expr<'a>(e: &'a GoExpression) -> (visited: Vec<&'a GoExpressionNode>)
    ensures
        node_views(visited@) == node_walk(e@.node),
    decreases e, 3nat,
{
    e.node.visit()
}

fn walk_opt_expr<'a>(e: &'a Option<GoExpression>) -> (visited: Vec<&'a GoExpressionNode>)
    ensures
        node_views(visited@) == opt_expr_walk(match e {
            Some(e) => Some(e@),
            None => None,
        }),
    decreases e, 4nat,
{
    match e {
        Some(e) => walk_expr(e),
        None => {
            let visited = Vec::new();
            assert(node_views(visited@) =~= Seq::<NodeView>::empty());
            visited
        },
    }
}

fn walk_exprs<'a>(es: &'a Vec<GoExpression>) -> (visited: Vec<&'a GoExpressionNode>)
    ensures
        node_views(visited@) == exprs_walk(crate::model::expr_list_view(es)),
    decreases es, 0nat,
{
    let ghost ev = crate::model::expr_list_view(es);
    let mut visited: Vec<&'a GoExpressionNode> = Vec::new();
    assert(node_views(visited@) =~= Seq::<NodeView>::empty());
    let mut i: usize = 0;
    while i < es.len()
        invariant
            ev == crate::model::expr_list_view(es),
            ev.len() == es@.len(),
            i <= es@.len(),
            node_views(visited@) == exprs_walk(ev.take(i as int)),
        decreases es@.len() - i,
    {
        proof {
            assert(decreases_to!(*es => es[i as int]));
            assert(ev.take(i + 1).drop_last() =~= ev.take(i as int));
            assert(ev.take(i + 1).last() == ev[i as int]);
        }
        let part = walk_expr(&es[i]);
        extend(&mut visited, part);
        i = i + 1;
    }
    assert(ev.take(i as int) =~= ev);
    visited
}

impl LoweredBlock {
    /// Every expression of the block in visiting order.
    pub fn visit_expressions<'a>(&'a self) -> (visited: Vec<&'a GoExpressionNode>)
        ensures
            node_views(visited@) == stmts_walk(self@),
        decreases self, 1nat,
    {
        visit_statements(&self.statements)
    }
}

impl ValuePlan {
    /// The expressions of the setup, then those of the value.
    pub fn visit_expressions<'a>(&'a self) -> (visited: Vec<&'a GoExpressionNode>)
        ensures
            node_views(visited@) == value_walk(self@),
        decreases self, 1nat,
    {
        let mut visited = visit_statements(&self.setup);
        let rest = walk_expr(&self.expression);
        extend(&mut visited, rest);
        visited
    }
}

impl SwitchCasePlan {
    /// The labels, then the body.
    pub fn visit_expressions<'a>(&'a self) -> (visited: Vec<&'a GoExpressionNode>)
        ensures
            node_views(visited@) == case_walk(self.view_case()),
        decreases self, 1nat,
    {
        let mut visited = walk_exprs(&self.labels);
        let rest = self.body.visit_expressions();
        extend(&mut visited, rest);
        visited
    }
}

impl IfPlan {
    /// The setup, the initializer's value, the condition, the branch, then the
    /// `else` chain.
    pub fn visit_expressions<'a>(&'a self) -> (visited: Vec<&'a GoExpressionNode>)
        ensures
            node_views(visited@) == if_walk(self@),
        decreases self, 1nat,
    {
        let mut visited = visit_statements(&self.condition_setup);
        let init = match &self.initializer {
            Some(d) => walk_expr(&d.value),
            None => {
                let v = Vec::new();
                assert(node_views(v@) =~= Seq::<NodeView>::empty());
                v
            },
        };
        extend(&mut visited, init);
        let condition = walk_expr(&self.condition);
        extend(&mut visited, condition);
        let then_part = self.then_body.visit_expressions();
        extend(&mut visited, then_part);
        proof {
            assert(decreases_to!(*self => self.else_arm));
        }
        let else_part = walk_else(&self.else_arm);
        extend(&mut visited, else_part);
        visited
    }
}

fn walk_else<'a>(arm: &'a ElseArm) -> (visited: Vec<&'a GoExpressionNode>)
    ensures
        node_views(visited@) == else_walk(arm.view_else()),
    decreases arm, 0nat,
{
    match arm {
        ElseArm::NoElse => {
            let v = Vec::new();
            assert(node_views(v@) =~= Seq::<NodeView>::empty());
            v
        },
        ElseArm::ElseIf(inner) => inner.visit_expressions(),
        ElseArm::Else { body, .. } => body.visit_expressions(),
    }
}

fn walk_header<'a>(header: &'a LoopHeader) -> (visited: Vec<&'a GoExpressionNode>)
    ensures
        node_views(visited@) == header_walk(crate::model::header_view(header)),
    decreases header, 5nat,
{
    match header {
        LoopHeader::Infinite => {
            let v = Vec::new();
            assert(node_views(v@) =~= Seq::<NodeView>::empty());
            v
        },
        LoopHeader::While(c) => walk_expr(c),
        LoopHeader::Range { iterable, .. } => walk_expr(iterable),
        LoopHeader::Counted { start, condition, .. } => {
            let mut visited = walk_expr(start);
            let rest = walk_opt_expr(condition);
            extend(&mut visited, rest);
            visited
        },
    }
}

fn walk_arm<'a>(arm: &'a SelectArmPlan) -> (visited: Vec<&'a GoExpressionNode>)
    ensures
        node_views(visited@) == arm_walk(arm.view_arm()),
    decreases arm, 0nat,
{
    match arm {
        SelectArmPlan::Receive { channel, body, .. } => {
            let mut visited = walk_expr(channel);
            let rest = body.visit_expressions();
            extend(&mut visited, rest);
            visited
        },
        SelectArmPlan::Send { channel, value, body } => {
            let mut visited = walk_expr(channel);
            let value_part = walk_expr(value);
            extend(&mut visited, value_part);
            let rest = body.visit_expressions();
            extend(&mut visited, rest);
            visited
        },
        SelectArmPlan::Default { body } => body.visit_expressions(),
    }
}

fn walk_arms<'a>(arms: &'a Vec<SelectArmPlan>) -> (visited: Vec<&'a GoExpressionNode>)
    ensures
        node_views(visited@) == arms_walk(crate::model::arm_list_view(arms)),
    decreases arms, 0nat,
{
    let ghost av = crate::model::arm_list_view(arms);
    let mut visited: Vec<&'a GoExpressionNode> = Vec::new();
    assert(node_views(visited@) =~= Seq::<NodeView>::empty());
    let mut i: usize = 0;
    while i < arms.len()
        invariant
            av == crate::model::arm_list_view(arms),
            av.len() == arms@.len(),
            i <= arms@.len(),
            node_views(visited@) == arms_walk(av.take(i as int)),
        decreases arms@.len() - i,
    {
        proof {
            assert(decreases_to!(*arms => arms[i as int]));
            assert(av.take(i + 1).drop_last() =~= av.take(i as int));
            assert(av.take(i + 1).last() == av[i as int]);
        }
        let part = walk_arm(&arms[i]);
        extend(&mut visited, part);
        i = i + 1;
    }
    assert(av.take(i as int) =~= av);
    visited
}

fn walk_cases<'a>(cases: &'a Vec<SwitchCasePlan>) -> (visited: Vec<&'a GoExpressionNode>)
    ensures
        node_views(visited@) == cases_walk(crate::model::case_list_view(cases)),
    decreases cases, 0nat,
{
    let ghost cv = crate::model::case_list_view(cases);
    let mut visited: Vec<&'a GoExpressionNode> = Vec::new();
    assert(node_views(visited@) =~= Seq::<NodeView>::empty());
    let mut i: usize = 0;
    while i < cases.len()
        invariant
            cv == crate::model::case_list_view(cases),
            cv.len() == cases@.len(),
            i <= cases@.len(),
            node_views(visited@) == cases_walk(cv.take(i as int)),
        decreases cases@.len() - i,
    {
        proof {
            assert(decreases_to!(*cases => cases[i as int]));
            assert(cv.take(i + 1).drop_last() =~= cv.take(i as int));
            assert(cv.take(i + 1).last() == cv[i as int]);
        }
        let part = cases[i].visit_expressions();
        extend(&mut visited, part);
        i = i + 1;
    }
    assert(cv.take(i as int) =~= cv);
    visited
}

fn walk_assign<'a>(form: &'a AssignForm) -> (visited: Vec<&'a GoExpressionNode>)
    ensures
        node_views(visited@) == assign_walk(form.view_assign()),
    decreases form, 0nat,
{
    match form {
        AssignForm::Compound { target_capture, target, kind } => {
            let mut visited = visit_statements(target_capture);
            let target_part = walk_expr(target);
            extend(&mut visited, target_part);
            let rest = match kind {
                CompoundKind::OpAssign { rhs, pinned_left, .. } => {
                    let mut r = rhs.visit_expressions();
                    let left = walk_opt_expr(pinned_left);
                    extend(&mut r, left);
                    r
                },
                _ => {
                    let v = Vec::new();
                    assert(node_views(v@) =~= Seq::<NodeView>::empty());
                    v
                },
            };
            extend(&mut visited, rest);
            visited
        },
        AssignForm::Simple { target_capture, target, value } => {
            let mut visited = visit_statements(target_capture);
            let target_part = walk_expr(target);
            extend(&mut visited, target_part);
            let rest = value.visit_expressions();
            extend(&mut visited, rest);
            visited
        },
    }
}

fn walk_switch<'a>(plan: &'a SwitchStatementPlan) -> (visited: Vec<&'a GoExpressionNode>)
    ensures
        node_views(visited@) == switch_walk(plan.view_switch()),
    decreases plan, 0nat,
{
    let ghost v = plan.view_switch();
    let mut visited = match &plan.kind {
        SwitchKind::Conditional => {
            let v = Vec::new();
            assert(node_views(v@) =~= Seq::<NodeView>::empty());
            v
        },
        SwitchKind::Value { subject } => walk_expr(subject),
        SwitchKind::Type { subject, .. } => walk_expr(subject),
    };
    assert(node_views(visited@) == (match v.kind {
        SwitchKindView::Conditional => Seq::empty(),
        SwitchKindView::Value { subject } => node_walk(subject.node),
        SwitchKindView::Type { subject, .. } => node_walk(subject.node),
    }));
    let cases = walk_cases(&plan.cases);
    extend(&mut visited, cases);
    let default = match &plan.default {
        Some(body) => body.visit_expressions(),
        None => {
            let v = Vec::new();
            assert(node_views(v@) =~= Seq::<NodeView>::empty());
            v
        },
    };
    extend(&mut visited, default);
    let postlude = visit_statements(&plan.postlude);
    assert(v.postlude == stmt_list_view(&plan.postlude));
    extend(&mut visited, postlude);
    visited
}

impl LoweredStatement {
    /// Every expression of the statement in visiting order.
    pub fn visit_expressions<'a>(&'a self) -> (visited: Vec<&'a GoExpressionNode>)
        ensures
            node_views(visited@) == stmt_walk(self@),
        decreases self, 1nat,
    {
        match self {
            LoweredStatement::If(plan) => plan.visit_expressions(),
            LoweredStatement::Loop(plan) => walk_loop(plan),
            LoweredStatement::Block(body) => body.visit_expressions(),
            LoweredStatement::Body(body) => body.visit_expressions(),
            LoweredStatement::WhileLet(body) => body.visit_expressions(),
            LoweredStatement::Assign(form) => walk_assign(form),
            LoweredStatement::Select(plan) => walk_select(plan),
            LoweredStatement::Switch(plan) => walk_switch(plan),
            LoweredStatement::Directed { inner, .. } => inner.visit_expressions(),
            LoweredStatement::Break(_)
            | LoweredStatement::Continue(_)
            | LoweredStatement::UnreachablePanic => {
                let v = Vec::new();
                assert(node_views(v@) =~= Seq::<NodeView>::empty());
                v
            },
            LoweredStatement::Const(_) => walk_const(self),
            LoweredStatement::Return(_) => walk_return(self),
            LoweredStatement::Async { .. } => walk_async(self),
            LoweredStatement::Define(_) => walk_define(self),
            LoweredStatement::AssignMany { .. } => walk_assign_many(self),
            LoweredStatement::VarDecl { .. } => walk_var_decl(self),
            LoweredStatement::Discard(_) => walk_discard(self),
            LoweredStatement::ExpressionStatement { .. } => walk_expression_statement(self),
        }
    }
}

fn walk_loop<'a>(plan: &'a LoopPlan) -> (visited: Vec<&'a GoExpressionNode>)
    ensures
        node_views(visited@) == loop_walk(plan.view_loop()),
    decreases plan, 0nat,
{
    let mut visited = visit_statements(&plan.prologue);
    let header = walk_header(&plan.header);
    assert(crate::model::header_view(&plan.header) == plan.view_loop().header);
    extend(&mut visited, header);
    let body = plan.body.visit_expressions();
    extend(&mut visited, body);
    visited
}

fn walk_select<'a>(plan: &'a SelectStatementPlan) -> (visited: Vec<&'a GoExpressionNode>)
    ensures
        node_views(visited@) == select_walk(plan.view_select()),
    decreases plan, 0nat,
{
    let mut visited = visit_statements(&plan.setup);
    let arms = walk_arms(&plan.arms);
    extend(&mut visited, arms);
    let postlude = visit_statements(&plan.postlude);
    extend(&mut visited, postlude);
    visited
}

fn walk_const<'a>(statement: &'a LoweredStatement) -> (visited: Vec<&'a GoExpressionNode>)
    requires
        statement is Const,
    ensures
        node_views(visited@) == stmt_walk(statement@),
    decreases statement, 0nat,
{
    match statement {
        LoweredStatement::Const(plan) => {
            proof {
                assert(decreases_to!(*statement => *plan));
                assert(decreases_to!(*plan => plan.value));
            }
            walk_expr(&plan.value)
        },
        _ => Vec::new(),
    }
}

fn walk_return<'a>(statement: &'a LoweredStatement) -> (visited: Vec<&'a GoExpressionNode>)
    requires
        statement is Return,
    ensures
        node_views(visited@) == stmt_walk(statement@),
    decreases statement, 0nat,
{
    match statement {
        LoweredStatement::Return(values) => walk_exprs(values),
        _ => Vec::new(),
    }
}

fn walk_async<'a>(statement: &'a LoweredStatement) -> (visited: Vec<&'a GoExpressionNode>)
    requires
        statement is Async,
    ensures
        node_views(visited@) == stmt_walk(statement@),
    decreases statement, 0nat,
{
    match statement {
        LoweredStatement::Async { call, .. } => walk_expr(call),
        _ => Vec::new(),
    }
}

fn walk_define<'a>(statement: &'a LoweredStatement) -> (visited: Vec<&'a GoExpressionNode>)
    requires
        statement is Define,
    ensures
        node_views(visited@) == stmt_walk(statement@),
    decreases statement, 0nat,
{
    match statement {
        LoweredStatement::Define(d) => {
            proof {
                assert(decreases_to!(*statement => *d));
                assert(decreases_to!(*d => d.value));
                assert(d@.value == d.value@);
                assert(statement@ == StmtView::Define(d@));
            }
            walk_expr(&d.value)
        },
        _ => Vec::new(),
    }
}

fn walk_assign_many<'a>(statement: &'a LoweredStatement) -> (visited: Vec<&'a GoExpressionNode>)
    requires
        statement is AssignMany,
    ensures
        node_views(visited@) == stmt_walk(statement@),
    decreases statement, 0nat,
{
    match statement {
        LoweredStatement::AssignMany { targets, value } => {
            let mut visited = walk_exprs(targets);
            let rest = walk_expr(value);
            extend(&mut visited, rest);
            visited
        },
        _ => Vec::new(),
    }
}

fn walk_var_decl<'a>(statement: &'a LoweredStatement) -> (visited: Vec<&'a GoExpressionNode>)
    requires
        statement is VarDecl,
    ensures
        node_views(visited@) == stmt_walk(statement@),
    decreases statement, 0nat,
{
    match statement {
        LoweredStatement::VarDecl { value, .. } => walk_opt_expr(value),
        _ => Vec::new(),
    }
}

fn walk_discard<'a>(statement: &'a LoweredStatement) -> (visited: Vec<&'a GoExpressionNode>)
    requires
        statement is Discard,
    ensures
        node_views(visited@) == stmt_walk(statement@),
    decreases statement, 0nat,
{
    match statement {
        LoweredStatement::Discard(e) => walk_expr(e),
        _ => Vec::new(),
    }
}

fn walk_expression_statement<'a>(statement: &'a LoweredStatement) -> (visited: Vec<&'a GoExpressionNode>)
    requires
        statement is ExpressionStatement,
    ensures
        node_views(visited@) == stmt_walk(statement@),
    decreases statement, 0nat,
{
    match statement {
        LoweredStatement::ExpressionStatement { expression, .. } => walk_expr(expression),
        _ => Vec::new(),
    }
}

} // verus!

verus! {

// ---------------------------------------------------------------------------
// Visiting statements
// ---------------------------------------------------------------------------

/// Every statement of the list and of the lists nested in it, each before
/// the statements nested in it; a directive's statement counts as nested.
pub open spec fn stmts_preorder(ss: Seq<StmtView>) -> Seq<StmtView>
    decreases ss, 1nat,
{
    if ss.len() == 0 {
        Seq::empty()
    } else {
        stmts_preorder(ss.drop_last()) + seq![ss.last()] + nested_preorder(ss.last())
    }
}

pub open spec fn if_preorder(plan: IfView) -> Seq<StmtView>
    decreases plan, 0nat,
{
    stmts_preorder(plan.condition_setup) + stmts_preorder(plan.then_body) + else_preorder(
        plan.else_arm,
    )
}

pub open spec fn else_preorder(arm: ElseView) -> Seq<StmtView>
    decreases arm, 0nat,
{
    match arm {
        ElseView::NoElse => Seq::empty(),
        ElseView::ElseIf(inner) => if_preorder(*inner),
        ElseView::Else { body, .. } => stmts_preorder(body),
    }
}

pub open spec fn arms_preorder(arms: Seq<ArmView>) -> Seq<StmtView>
    decreases arms, 0nat,
{
    if arms.len() == 0 {
        Seq::empty()
    } else {
        arms_preorder(arms.drop_last()) + stmts_preorder(crate::bodies::arm_body(arms.last()))
    }
}

pub open spec fn cases_preorder(cases: Seq<CaseView>) -> Seq<StmtView>
    decreases cases, 0nat,
{
    if cases.len() == 0 {
        Seq::empty()
    } else {
        cases_preorder(cases.drop_last()) + stmts_preorder(cases.last().body)
    }
}

pub open spec fn assign_preorder(form: AssignView) -> Seq<StmtView>
    decreases form, 0nat,
{
    match form {
        AssignView::Compound { target_capture, kind, .. } => stmts_preorder(target_capture) + (
        match kind {
            CompoundView::OpAssign { rhs, .. } => stmts_preorder(rhs.setup),
            _ => Seq::empty(),
        }),
        AssignView::Simple { target_capture, value, .. } => stmts_preorder(target_capture)
            + stmts_preorder(value.setup),
    }
}

pub open spec fn select_preorder(plan: SelectView) -> Seq<StmtView>
    decreases plan, 0nat,
{
    stmts_preorder(plan.setup) + arms_preorder(plan.arms) + stmts_preorder(plan.postlude)
}

pub open spec fn switch_preorder(plan: SwitchView) -> Seq<StmtView>
    decreases plan, 0nat,
{
    cases_preorder(plan.cases) + (match plan.default {
        Some(body) => stmts_preorder(body),
        None => Seq::empty(),
    }) + stmts_preorder(plan.postlude)
}

/// The statements nested in `s`, in visiting order.
pub open spec fn nested_preorder(s: StmtView) -> Seq<StmtView>
    decreases s, 0nat,
{
    match s {
        StmtView::If(plan) => if_preorder(plan),
        StmtView::Loop(plan) => stmts_preorder(plan.prologue) + stmts_preorder(plan.body),
        StmtView::Block(body) => stmts_preorder(body),
        StmtView::Body(body) => stmts_preorder(body),
        StmtView::WhileLet(body) => stmts_preorder(body),
        StmtView::Assign(form) => assign_preorder(form),
        StmtView::Select(plan) => select_preorder(plan),
        StmtView::Switch(plan) => switch_preorder(plan),
        StmtView::Directed { inner, .. } => seq![*inner] + nested_preorder(*inner),
        _ => Seq::empty(),
    }
}

pub open spec fn stmt_refs_view(refs: Seq<&LoweredStatement>) -> Seq<StmtView> {
    Seq::new(refs.len(), |i: int| refs[i]@)
}

fn extend_statements<'a>(visited: &mut Vec<&'a LoweredStatement>, part: Vec<&'a LoweredStatement>)
    ensures
        stmt_refs_view(final(visited)@) == stmt_refs_view(old(visited)@) + stmt_refs_view(part@),
{
    let mut part = part;
    proof {
        assert(stmt_refs_view(visited@ + part@) =~= stmt_refs_view(visited@) + stmt_refs_view(part@));
    }
    visited.append(&mut part);
}

fn no_statements<'a>() -> (visited: Vec<&'a LoweredStatement>)
    ensures
        stmt_refs_view(visited@) == Seq::<StmtView>::empty(),
{
    let visited = Vec::new();
    assert(stmt_refs_view(visited@) =~= Seq::<StmtView>::empty());
    visited
}

/// Every statement of the list and of the lists nested in it, each before
/// the statements nested in it.
pub fn for_each_statement<'a>(statements: &'a Vec<LoweredStatement>) -> (visited: Vec<&'a LoweredStatement>)
    ensures
        stmt_refs_view(visited@) == stmts_preorder(stmt_list_view(statements)),
    decreases statements, 1nat,
{
    let ghost sv = stmt_list_view(statements);
    let mut visited = no_statements();
    let mut i: usize = 0;
    while i < statements.len()
        invariant
            sv == stmt_list_view(statements),
            sv.len() == statements@.len(),
            i <= statements@.len(),
            stmt_refs_view(visited@) == stmts_preorder(sv.take(i as int)),
        decreases statements@.len() - i,
    {
        proof {
            assert(decreases_to!(*statements => statements[i as int]));
            assert(sv.take(i + 1).drop_last() =~= sv.take(i as int));
            assert(sv.take(i + 1).last() == sv[i as int]);
        }
        let statement = &statements[i];
        let mut one = Vec::new();
        one.push(statement);
        assert(stmt_refs_view(one@) =~= seq![sv[i as int]]);
        extend_statements(&mut visited, one);
        let nested = statement.for_each_nested_statement();
        extend_statements(&mut visited, nested);
        i = i + 1;
    }
    assert(sv.take(i as int) =~= sv);
    visited
}

impl LoweredStatement {
    /// The statements nested in this one, in visiting order.
    pub fn for_each_nested_statement<'a>(&'a self) -> (visited: Vec<&'a LoweredStatement>)
        ensures
            stmt_refs_view(visited@) == nested_preorder(self@),
        decreases self, 0nat,
    {
        match self {
            LoweredStatement::If(plan) => plan.for_each_statement(),
            LoweredStatement::Loop(plan) => {
                assert(self@ == StmtView::Loop(plan.view_loop()));
                assert(plan.view_loop().body == stmt_list_view(&plan.body.statements));
                assert(decreases_to!(*plan => plan.body));
                let mut visited = for_each_statement(&plan.prologue);
                let body = for_each_statement(&plan.body.statements);
                extend_statements(&mut visited, body);
                visited
            },
            LoweredStatement::Block(body) => {
                assert(body@ == stmt_list_view(&body.statements));
                assert(self@ == StmtView::Block(body@));
                for_each_statement(&body.statements)
            },
            LoweredStatement::Body(body) => {
                assert(body@ == stmt_list_view(&body.statements));
                assert(self@ == StmtView::Body(body@));
                for_each_statement(&body.statements)
            },
            LoweredStatement::WhileLet(body) => {
                assert(body@ == stmt_list_view(&body.statements));
                assert(self@ == StmtView::WhileLet(body@));
                for_each_statement(&body.statements)
            },
            LoweredStatement::Assign(form) => assign_statements(form),
            LoweredStatement::Select(plan) => select_statements(plan),
            LoweredStatement::Switch(plan) => switch_statements(plan),
            LoweredStatement::Directed { inner, .. } => {
                let mut visited = Vec::new();
                visited.push(&**inner);
                assert(stmt_refs_view(visited@) =~= seq![(**inner)@]);
                let nested = inner.for_each_nested_statement();
                extend_statements(&mut visited, nested);
                visited
            },
            _ => no_statements(),
        }
    }
}

impl IfPlan {
    /// The statements of the setup, the branch and the `else` chain.
    pub fn for_each_statement<'a>(&'a self) -> (visited: Vec<&'a LoweredStatement>)
        ensures
            stmt_refs_view(visited@) == if_preorder(self@),
        decreases self, 2nat,
    {
        let mut visited = for_each_statement(&self.condition_setup);
        let then_part = for_each_statement(&self.then_body.statements);
        extend_statements(&mut visited, then_part);
        proof {
            assert(decreases_to!(*self => self.else_arm));
        }
        let else_part = else_statements(&self.else_arm);
        extend_statements(&mut visited, else_part);
        visited
    }
}

fn else_statements<'a>(arm: &'a ElseArm) -> (visited: Vec<&'a LoweredStatement>)
    ensures
        stmt_refs_view(visited@) == else_preorder(arm.view_else()),
    decreases arm, 0nat,
{
    match arm {
        ElseArm::NoElse => no_statements(),
        ElseArm::ElseIf(inner) => inner.for_each_statement(),
        ElseArm::Else { body, .. } => for_each_statement(&body.statements),
    }
}

fn assign_statements<'a>(form: &'a AssignForm) -> (visited: Vec<&'a LoweredStatement>)
    ensures
        stmt_refs_view(visited@) == assign_preorder(form.view_assign()),
    decreases form, 0nat,
{
    match form {
        AssignForm::Compound { target_capture, kind, .. } => {
            let mut visited = for_each_statement(target_capture);
            let rest = match kind {
                CompoundKind::OpAssign { rhs, .. } => {
                    assert(decreases_to!(*kind => *rhs));
                    for_each_statement(&rhs.setup)
                },
                _ => no_statements(),
            };
            extend_statements(&mut visited, rest);
            visited
        },
        AssignForm::Simple { target_capture, value, .. } => {
            let mut visited = for_each_statement(target_capture);
            let rest = for_each_statement(&value.setup);
            extend_statements(&mut visited, rest);
            visited
        },
    }
}

#[verifier::loop_isolation(false)]
fn select_statements<'a>(plan: &'a SelectStatementPlan) -> (visited: Vec<&'a LoweredStatement>)
    ensures
        stmt_refs_view(visited@) == select_preorder(plan.view_select()),
    decreases plan, 0nat,
{
    let mut visited = for_each_statement(&plan.setup);
    let arms = &plan.arms;
    let ghost av = crate::model::arm_list_view(arms);
    let mut arm_part = no_statements();
    let mut i: usize = 0;
    while i < arms.len()
        invariant
            av == crate::model::arm_list_view(arms),
            av.len() == arms@.len(),
            i <= arms@.len(),
            stmt_refs_view(arm_part@) == arms_preorder(av.take(i as int)),
        decreases arms@.len() - i,
    {
        proof {
            assert(decreases_to!(*plan => plan.arms));
            assert(decreases_to!(*arms => arms[i as int]));
            assert(decreases_to!(*plan => arms[i as int]));
            assert(av.take(i + 1).drop_last() =~= av.take(i as int));
            assert(av.take(i + 1).last() == av[i as int]);
        }
        let part = arm_statements(&arms[i]);
        extend_statements(&mut arm_part, part);
        i = i + 1;
    }
    assert(av.take(i as int) =~= av);
    extend_statements(&mut visited, arm_part);
    let postlude = for_each_statement(&plan.postlude);
    extend_statements(&mut visited, postlude);
    visited
}

fn arm_statements<'a>(arm: &'a SelectArmPlan) -> (visited: Vec<&'a LoweredStatement>)
    ensures
        stmt_refs_view(visited@) == stmts_preorder(crate::bodies::arm_body(arm.view_arm())),
    decreases arm, 0nat,
{
    match arm {
        SelectArmPlan::Receive { body, .. } => for_each_statement(&body.statements),
        SelectArmPlan::Send { body, .. } => for_each_statement(&body.statements),
        SelectArmPlan::Default { body } => for_each_statement(&body.statements),
    }
}

#[verifier::loop_isolation(false)]
fn switch_statements<'a>(plan: &'a SwitchStatementPlan) -> (visited: Vec<&'a LoweredStatement>)
    ensures
        stmt_refs_view(visited@) == switch_preorder(plan.view_switch()),
    decreases plan, 0nat,
{
    let cases = &plan.cases;
    let ghost cv = crate::model::case_list_view(cases);
    let mut visited = no_statements();
    let mut i: usize = 0;
    while i < cases.len()
        invariant
            cv == crate::model::case_list_view(cases),
            cv.len() == cases@.len(),
            i <= cases@.len(),
            stmt_refs_view(visited@) == cases_preorder(cv.take(i as int)),
        decreases cases@.len() - i,
    {
        proof {
            assert(decreases_to!(*cases => cases[i as int]));
            assert(cv.take(i + 1).drop_last() =~= cv.take(i as int));
            assert(cv.take(i + 1).last() == cv[i as int]);
            assert(decreases_to!(cases[i as int] => cases[i as int].body));
            assert(decreases_to!(cases[i as int].body => cases[i as int].body.statements));
            assert(decreases_to!(*plan => plan.cases));
            assert(decreases_to!(*plan => cases[i as int].body.statements));
            assert(cv[i as int].body == stmt_list_view(&cases[i as int].body.statements));
        }
        let part = for_each_statement(&cases[i].body.statements);
        extend_statements(&mut visited, part);
        i = i + 1;
    }
    assert(cv.take(i as int) =~= cv);
    let default = match &plan.default {
        Some(body) => for_each_statement(&body.statements),
        None => no_statements(),
    };
    extend_statements(&mut visited, default);
    let postlude = for_each_statement(&plan.postlude);
    extend_statements(&mut visited, postlude);
    visited
}

} // verus!

verus! {

pub open spec fn opt_child(node: Option<Box<NodeView>>) -> Seq<NodeView> {
    match node {
        Some(n) => seq![*n],
        None => Seq::empty(),
    }
}

/// The keys and values of the elements, in order.
pub open spec fn element_children(elements: Seq<ElementView>) -> Seq<NodeView>
    decreases elements.len(),
{
    if elements.len() == 0 {
        Seq::empty()
    } else {
        element_children(elements.drop_last()) + match elements.last().key {
            Some(k) => seq![k, elements.last().value],
            None => seq![elements.last().value],
        }
    }
}

/// The node's direct children, in order; a function literal's body belongs
/// to statements and holds none of them.
pub open spec fn direct_children(node: NodeView) -> Seq<NodeView> {
    match node {
        NodeView::CompositeLiteral { elements, .. } => element_children(elements),
        NodeView::Call { callee, arguments } => seq![*callee] + arguments,
        NodeView::Instantiation { base, .. } => seq![*base],
        NodeView::Selector { base, .. } => seq![*base],
        NodeView::TypeAssertion { base, .. } => seq![*base],
        NodeView::Index { base, index } => seq![*base, *index],
        NodeView::Slice { base, low, high, max } => seq![*base] + opt_child(low) + opt_child(high) + opt_child(max),
        NodeView::Unary { operand, .. } => seq![*operand],
        NodeView::Conversion { operand, .. } => seq![*operand],
        NodeView::AddressOf(operand) => seq![*operand],
        NodeView::Dereference(operand) => seq![*operand],
        NodeView::Spread(operand) => seq![*operand],
        NodeView::Binary { left, right, .. } => seq![*left, *right],
        _ => Seq::empty(),
    }
}

fn push_node<'a>(visited: &mut Vec<&'a GoExpressionNode>, node: &'a GoExpressionNode)
    ensures
        node_views(final(visited)@) == node_views(old(visited)@).push(node@),
{
    visited.push(node);
    assert(node_views(visited@) =~= node_views(old(visited)@).push(node@));
}

fn push_bound<'a>(visited: &mut Vec<&'a GoExpressionNode>, bound: &'a Option<Box<GoExpressionNode>>)
    ensures
        node_views(final(visited)@) == node_views(old(visited)@) + opt_child(crate::model::bound_view(bound)),
{
    match bound {
        Some(b) => push_node(visited, b),
        None => {
            assert(node_views(old(visited)@) + Seq::<NodeView>::empty() =~= node_views(old(visited)@));
        },
    }
}

impl GoExpressionNode {
    /// The node's direct children, in order.
    pub fn visit_children<'a>(&'a self) -> (children: Vec<&'a GoExpressionNode>)
        ensures
            node_views(children@) == direct_children(self@),
    {
        let mut visited: Vec<&'a GoExpressionNode> = Vec::new();
        assert(node_views(visited@) =~= Seq::<NodeView>::empty());
        match self {
            GoExpressionNode::CompositeLiteral { elements, .. } => {
                let ghost ev = Seq::new(elements@.len(), |i: int| elements@[i]@);
                assert(ev =~= self@->CompositeLiteral_elements);
                let mut i: usize = 0;
                while i < elements.len()
                    invariant
                        ev == Seq::new(elements@.len(), |i: int| elements@[i]@),
                        i <= elements@.len(),
                        node_views(visited@) == element_children(ev.take(i as int)),
                    decreases elements@.len() - i,
                {
                    proof {
                        assert(ev.take(i + 1).drop_last() =~= ev.take(i as int));
                        assert(ev.take(i + 1).last() == elements@[i as int]@);
                    }
                    let element = &elements[i];
                    let ghost before = node_views(visited@);
                    match &element.key {
                        Some(k) => {
                            assert(element@.key == Some(k@));
                            push_node(&mut visited, k);
                        },
                        None => {},
                    }
                    push_node(&mut visited, &element.value);
                    assert(node_views(visited@) =~= before + match element@.key {
                        Some(k) => seq![k, element@.value],
                        None => seq![element@.value],
                    });
                    i = i + 1;
                }
                assert(ev.take(i as int) =~= ev);
            },
            GoExpressionNode::Call { callee, arguments } => {
                push_node(&mut visited, callee);
                let mut i: usize = 0;
                while i < arguments.len()
                    invariant
                        i <= arguments@.len(),
                        node_views(visited@) == seq![(**callee)@] + Seq::new(i as nat, |j: int| arguments@[j]@),
                    decreases arguments@.len() - i,
                {
                    push_node(&mut visited, &arguments[i]);
                    assert(node_views(visited@) =~= seq![(**callee)@] + Seq::new((i + 1) as nat, |j: int| arguments@[j]@));
                    i = i + 1;
                }
                assert(Seq::new(i as nat, |j: int| arguments@[j]@) =~= self@->Call_arguments);
            },
            GoExpressionNode::Instantiation { base, .. } => push_node(&mut visited, base),
            GoExpressionNode::Selector { base, .. } => push_node(&mut visited, base),
            GoExpressionNode::TypeAssertion { base, .. } => push_node(&mut visited, base),
            GoExpressionNode::Index { base, index } => {
                push_node(&mut visited, base);
                push_node(&mut visited, index);
                assert(node_views(visited@) =~= seq![(**base)@, (**index)@]);
            },
            GoExpressionNode::Slice { base, low, high, max } => {
                push_node(&mut visited, base);
                push_bound(&mut visited, low);
                push_bound(&mut visited, high);
                push_bound(&mut visited, max);
            },
            GoExpressionNode::Unary { operand, .. } => push_node(&mut visited, operand),
            GoExpressionNode::Conversion { operand, .. } => push_node(&mut visited, operand),
            GoExpressionNode::AddressOf(operand) => push_node(&mut visited, operand),
            GoExpressionNode::Dereference(operand) => push_node(&mut visited, operand),
            GoExpressionNode::Spread(operand) => push_node(&mut visited, operand),
            GoExpressionNode::Binary { left, right, .. } => {
                push_node(&mut visited, left);
                push_node(&mut visited, right);
                assert(node_views(visited@) =~= seq![(**left)@, (**right)@]);
            },
            _ => {},
        }
        visited
    }
}

} // verus!
