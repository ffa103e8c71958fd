//! Copies of expressions and lowered statements: `Clone` for the tree
//! types, each copy with the same view as the value it copies.

use crate::bodies::{
    AssignForm, CompoundKind, ConstPlan, Definition, ElseArm, IfPlan, LoopHeader, LoopKind, LoopPlan, LoopTransfer,
    LoweredBlock, LoweredStatement, SelectArmPlan, SelectStatementPlan, SwitchCasePlan, SwitchKind,
    SwitchStatementPlan,
};
use crate::go_expression::{CompositeElement, GoExpressionNode, GoParameter};
use crate::model::{
    arm_list_view, bound_view, case_list_view, expr_list_view, header_view, opt_text, stmt_list_view,
    texts,
};
use crate::values::{GoExpression, ValuePlan};
use vstd::prelude::*;

verus! {

fn copy_text(t: &String) -> (r: String)
    ensures
        r@ == t@,
{
    t.clone()
}

fn copy_opt_text(t: &Option<String>) -> (r: Option<String>)
    ensures
        opt_text(r) == opt_text(*t),
{
    match t {
        Some(s) => Some(s.clone()),
        None => None,
    }
}

fn copy_texts(v: &Vec<String>) -> (r: Vec<String>)
    ensures
        texts(r@) == texts(v@),
{
    let mut r: Vec<String> = Vec::new();
    let mut i: usize = 0;
    while i < v.len()
        invariant
            i <= v@.len(),
            r@.len() == i,
            forall|j: int| 0 <= j < i ==> #[trigger] r@[j]@ == v@[j]@,
        decreases v@.len() - i,
    {
        r.push(v[i].clone());
        i = i + 1;
    }
    assert(texts(r@) =~= texts(v@));
    r
}

fn copy_params(v: &Vec<GoParameter>) -> (r: Vec<GoParameter>)
    ensures
        r@.len() == v@.len(),
        forall|j: int| 0 <= j < v@.len() ==> #[trigger] r@[j].name@ == v@[j].name@ && r@[j].go_type@ == v@[j].go_type@,
{
    let mut r: Vec<GoParameter> = Vec::new();
    let mut i: usize = 0;
    while i < v.len()
        invariant
            i <= v@.len(),
            r@.len() == i,
            forall|j: int| 0 <= j < i ==> #[trigger] r@[j].name@ == v@[j].name@ && r@[j].go_type@ == v@[j].go_type@,
        decreases v@.len() - i,
    {
        r.push(GoParameter { name: v[i].name.clone(), go_type: v[i].go_type.clone() });
        i = i + 1;
    }
    r
}

fn copy_bound(b: &Option<Box<GoExpressionNode>>) -> (r: Option<Box<GoExpressionNode>>)
    ensures
        bound_view(&r) == bound_view(b),
    decreases b,
{
    match b {
        Some(n) => Some(Box::new(copy_node(n))),
        None => None,
    }
}

fn copy_nodes(v: &Vec<GoExpressionNode>) -> (r: Vec<GoExpressionNode>)
    ensures
        r@.len() == v@.len(),
        forall|j: int| 0 <= j < v@.len() ==> #[trigger] r@[j].view_node() == v@[j].view_node(),
    decreases v,
{
    let mut r: Vec<GoExpressionNode> = Vec::new();
    let mut i: usize = 0;
    while i < v.len()
        invariant
            i <= v@.len(),
            r@.len() == i,
            forall|j: int| 0 <= j < i ==> #[trigger] r@[j].view_node() == v@[j].view_node(),
        decreases v@.len() - i,
    {
        proof {
            assert(decreases_to!(*v => v[i as int]));
        }
        r.push(copy_node(&v[i]));
        i = i + 1;
    }
    r
}

fn copy_elements(v: &Vec<CompositeElement>) -> (r: Vec<CompositeElement>)
    ensures
        r@.len() == v@.len(),
        forall|j: int| 0 <= j < v@.len() ==> #[trigger] r@[j].view_element() == v@[j].view_element(),
    decreases v,
{
    let mut r: Vec<CompositeElement> = Vec::new();
    let mut i: usize = 0;
    while i < v.len()
        invariant
            i <= v@.len(),
            r@.len() == i,
            forall|j: int| 0 <= j < i ==> #[trigger] r@[j].view_element() == v@[j].view_element(),
        decreases v@.len() - i,
    {
        proof {
            assert(decreases_to!(*v => v[i as int]));
        }
        let e = &v[i];
        let key = match &e.key {
            Some(k) => Some(copy_node(k)),
            None => None,
        };
        r.push(CompositeElement { key, value: copy_node(&e.value) });
        i = i + 1;
    }
    r
}

/// A copy of the node.
pub fn copy_node(n: &GoExpressionNode) -> (r: GoExpressionNode)
    ensures
        r.view_node() == n.view_node(),
    decreases n,
{
    match n {
        GoExpressionNode::Identifier(t) => GoExpressionNode::Identifier(copy_text(t)),
        GoExpressionNode::Qualified { package, name } => GoExpressionNode::Qualified {
            package: copy_text(package),
            name: copy_text(name),
        },
        GoExpressionNode::Literal(t) => GoExpressionNode::Literal(copy_text(t)),
        GoExpressionNode::Type(t) => GoExpressionNode::Type(copy_text(t)),
        GoExpressionNode::CompositeLiteral { go_type, elements, layout } => {
            let copied = copy_elements(elements);
            let r = GoExpressionNode::CompositeLiteral { go_type: copy_opt_text(go_type), elements: copied, layout: *layout };
            assert forall|j: int| 0 <= j < elements@.len() implies #[trigger] r.view_node()->CompositeLiteral_elements[j]
                == n.view_node()->CompositeLiteral_elements[j] by {
                assert(copied@[j].view_element() == elements@[j].view_element());
            }
            assert(r.view_node()->CompositeLiteral_elements =~= n.view_node()->CompositeLiteral_elements);
            r
        },
        GoExpressionNode::Call { callee, arguments } => {
            let copied = copy_nodes(arguments);
            let r = GoExpressionNode::Call { callee: Box::new(copy_node(callee)), arguments: copied };
            assert forall|j: int| 0 <= j < arguments@.len() implies #[trigger] r.view_node()->Call_arguments[j]
                == n.view_node()->Call_arguments[j] by {
                assert(copied@[j].view_node() == arguments@[j].view_node());
            }
            assert(r.view_node()->Call_arguments =~= n.view_node()->Call_arguments);
            r
        },
        GoExpressionNode::Instantiation { base, type_arguments } => GoExpressionNode::Instantiation {
            base: Box::new(copy_node(base)),
            type_arguments: copy_text(type_arguments),
        },
        GoExpressionNode::Selector { base, field } => GoExpressionNode::Selector {
            base: Box::new(copy_node(base)),
            field: copy_text(field),
        },
        GoExpressionNode::Index { base, index } => GoExpressionNode::Index {
            base: Box::new(copy_node(base)),
            index: Box::new(copy_node(index)),
        },
        GoExpressionNode::Slice { base, low, high, max } => GoExpressionNode::Slice {
            base: Box::new(copy_node(base)),
            low: copy_bound(low),
            high: copy_bound(high),
            max: copy_bound(max),
        },
        GoExpressionNode::TypeAssertion { base, go_type } => GoExpressionNode::TypeAssertion {
            base: Box::new(copy_node(base)),
            go_type: copy_text(go_type),
        },
        GoExpressionNode::Unary { operator, operand } => GoExpressionNode::Unary {
            operator: copy_text(operator),
            operand: Box::new(copy_node(operand)),
        },
        GoExpressionNode::AddressOf(o) => GoExpressionNode::AddressOf(Box::new(copy_node(o))),
        GoExpressionNode::Dereference(o) => GoExpressionNode::Dereference(Box::new(copy_node(o))),
        GoExpressionNode::Binary { operator, left, right } => GoExpressionNode::Binary {
            operator: copy_text(operator),
            left: Box::new(copy_node(left)),
            right: Box::new(copy_node(right)),
        },
        GoExpressionNode::Conversion { go_type, operand } => GoExpressionNode::Conversion {
            go_type: copy_text(go_type),
            operand: Box::new(copy_node(operand)),
        },
        GoExpressionNode::Spread(o) => GoExpressionNode::Spread(Box::new(copy_node(o))),
        GoExpressionNode::FunctionLiteral { parameters, result, body, layout } => {
            let copied = copy_params(parameters);
            let r = GoExpressionNode::FunctionLiteral {
                parameters: copied,
                result: copy_text(result),
                body: copy_block(body),
                layout: *layout,
            };
            assert(r.view_node()->FunctionLiteral_parameters =~= n.view_node()->FunctionLiteral_parameters);
            r
        },
        GoExpressionNode::Empty => GoExpressionNode::Empty,
        GoExpressionNode::Verbatim(t) => GoExpressionNode::Verbatim(copy_text(t)),
    }
}

/// A copy of the expression.
pub fn copy_expr(e: &GoExpression) -> (r: GoExpression)
    ensures
        r@ == e@,
    decreases e,
{
    GoExpression { node: copy_node(&e.node), constant: e.constant }
}

fn copy_opt_expr(e: &Option<GoExpression>) -> (r: Option<GoExpression>)
    ensures
        match (r, *e) {
            (Some(a), Some(b)) => a@ == b@,
            (None, None) => true,
            _ => false,
        },
    decreases e,
{
    match e {
        Some(x) => Some(copy_expr(x)),
        None => None,
    }
}

fn copy_exprs(v: &Vec<GoExpression>) -> (r: Vec<GoExpression>)
    ensures
        expr_list_view(&r) == expr_list_view(v),
    decreases v,
{
    let mut r: Vec<GoExpression> = Vec::new();
    let mut i: usize = 0;
    while i < v.len()
        invariant
            i <= v@.len(),
            r@.len() == i,
            forall|j: int| 0 <= j < i ==> #[trigger] r@[j]@ == v@[j]@,
        decreases v@.len() - i,
    {
        proof {
            assert(decreases_to!(*v => v[i as int]));
        }
        r.push(copy_expr(&v[i]));
        i = i + 1;
    }
    assert forall|j: int| 0 <= j < v@.len() implies #[trigger] expr_list_view(&r)[j] == expr_list_view(v)[j] by {
        assert(r@[j]@ == v@[j]@);
    }
    assert(expr_list_view(&r) =~= expr_list_view(v));
    r
}

/// A copy of the statements.
pub fn copy_statements(v: &Vec<LoweredStatement>) -> (r: Vec<LoweredStatement>)
    ensures
        stmt_list_view(&r) == stmt_list_view(v),
    decreases v,
{
    let mut r: Vec<LoweredStatement> = Vec::new();
    let mut i: usize = 0;
    while i < v.len()
        invariant
            i <= v@.len(),
            r@.len() == i,
            forall|j: int| 0 <= j < i ==> #[trigger] r@[j]@ == v@[j]@,
        decreases v@.len() - i,
    {
        proof {
            assert(decreases_to!(*v => v[i as int]));
        }
        r.push(copy_statement(&v[i]));
        i = i + 1;
    }
    assert forall|j: int| 0 <= j < v@.len() implies #[trigger] stmt_list_view(&r)[j] == stmt_list_view(v)[j] by {
        assert(r@[j]@ == v@[j]@);
    }
    assert(stmt_list_view(&r) =~= stmt_list_view(v));
    r
}

fn copy_block(b: &LoweredBlock) -> (r: LoweredBlock)
    ensures
        r@ == b@,
    decreases b,
{
    LoweredBlock { statements: copy_statements(&b.statements) }
}

fn copy_opt_block(b: &Option<LoweredBlock>) -> (r: Option<LoweredBlock>)
    ensures
        match (r, *b) {
            (Some(x), Some(y)) => x@ == y@,
            (None, None) => true,
            _ => false,
        },
    decreases b,
{
    match b {
        Some(x) => Some(copy_block(x)),
        None => None,
    }
}

fn copy_value(v: &ValuePlan) -> (r: ValuePlan)
    ensures
        r@ == v@,
    decreases v,
{
    ValuePlan { setup: copy_statements(&v.setup), expression: copy_expr(&v.expression), evaluation: v.evaluation }
}

fn copy_def(d: &Definition) -> (r: Definition)
    ensures
        r@ == d@,
    decreases d,
{
    Definition { names: copy_texts(&d.names), value: copy_expr(&d.value) }
}

fn copy_compound(k: &CompoundKind) -> (r: CompoundKind)
    ensures
        r.view_compound() == k.view_compound(),
    decreases k,
{
    match k {
        CompoundKind::Increment => CompoundKind::Increment,
        CompoundKind::Decrement => CompoundKind::Decrement,
        CompoundKind::OpAssign { op_text, rhs, pinned_left } => CompoundKind::OpAssign {
            op_text: copy_text(op_text),
            rhs: Box::new(copy_value(rhs)),
            pinned_left: copy_opt_expr(pinned_left),
        },
    }
}

fn copy_assign(f: &AssignForm) -> (r: AssignForm)
    ensures
        r.view_assign() == f.view_assign(),
    decreases f,
{
    match f {
        AssignForm::Compound { target_capture, target, kind } => AssignForm::Compound {
            target_capture: copy_statements(target_capture),
            target: copy_expr(target),
            kind: copy_compound(kind),
        },
        AssignForm::Simple { target_capture, target, value } => AssignForm::Simple {
            target_capture: copy_statements(target_capture),
            target: copy_expr(target),
            value: copy_value(value),
        },
    }
}

fn copy_case(case: &SwitchCasePlan) -> (r: SwitchCasePlan)
    ensures
        r.view_case() == case.view_case(),
    decreases case,
{
    SwitchCasePlan { labels: copy_exprs(&case.labels), body: copy_block(&case.body) }
}

fn copy_cases(v: &Vec<SwitchCasePlan>) -> (r: Vec<SwitchCasePlan>)
    ensures
        case_list_view(&r) == case_list_view(v),
    decreases v,
{
    let mut r: Vec<SwitchCasePlan> = Vec::new();
    let mut i: usize = 0;
    while i < v.len()
        invariant
            i <= v@.len(),
            r@.len() == i,
            forall|j: int| 0 <= j < i ==> #[trigger] r@[j].view_case() == v@[j].view_case(),
        decreases v@.len() - i,
    {
        proof {
            assert(decreases_to!(*v => v[i as int]));
        }
        r.push(copy_case(&v[i]));
        i = i + 1;
    }
    assert forall|j: int| 0 <= j < v@.len() implies #[trigger] case_list_view(&r)[j] == case_list_view(v)[j] by {
        assert(r@[j].view_case() == v@[j].view_case());
    }
    assert(case_list_view(&r) =~= case_list_view(v));
    r
}

pub open spec fn same_switch_kind(a: SwitchKind, b: SwitchKind) -> bool {
    match (a, b) {
        (SwitchKind::Conditional, SwitchKind::Conditional) => true,
        (SwitchKind::Value { subject: x }, SwitchKind::Value { subject: y }) => x@ == y@,
        (SwitchKind::Type { subject: x, binding: u }, SwitchKind::Type { subject: y, binding: w }) => x@ == y@
            && opt_text(u) == opt_text(w),
        _ => false,
    }
}

fn copy_switch_kind(k: &SwitchKind) -> (r: SwitchKind)
    ensures
        same_switch_kind(r, *k),
    decreases k,
{
    match k {
        SwitchKind::Conditional => SwitchKind::Conditional,
        SwitchKind::Value { subject } => SwitchKind::Value { subject: copy_expr(subject) },
        SwitchKind::Type { subject, binding } => SwitchKind::Type {
            subject: copy_expr(subject),
            binding: copy_opt_text(binding),
        },
    }
}

fn copy_switch(p: &SwitchStatementPlan) -> (r: SwitchStatementPlan)
    ensures
        r.view_switch() == p.view_switch(),
    decreases p,
{
    SwitchStatementPlan {
        kind: copy_switch_kind(&p.kind),
        cases: copy_cases(&p.cases),
        default: copy_opt_block(&p.default),
        postlude: copy_statements(&p.postlude),
    }
}

fn copy_arm(arm: &SelectArmPlan) -> (r: SelectArmPlan)
    ensures
        r.view_arm() == arm.view_arm(),
    decreases arm,
{
    match arm {
        SelectArmPlan::Receive { receive_vars, channel, body } => SelectArmPlan::Receive {
            receive_vars: copy_opt_text(receive_vars),
            channel: copy_expr(channel),
            body: copy_block(body),
        },
        SelectArmPlan::Send { channel, value, body } => SelectArmPlan::Send {
            channel: copy_expr(channel),
            value: copy_expr(value),
            body: copy_block(body),
        },
        SelectArmPlan::Default { body } => SelectArmPlan::Default { body: copy_block(body) },
    }
}

fn copy_arms(v: &Vec<SelectArmPlan>) -> (r: Vec<SelectArmPlan>)
    ensures
        arm_list_view(&r) == arm_list_view(v),
    decreases v,
{
    let mut r: Vec<SelectArmPlan> = Vec::new();
    let mut i: usize = 0;
    while i < v.len()
        invariant
            i <= v@.len(),
            r@.len() == i,
            forall|j: int| 0 <= j < i ==> #[trigger] r@[j].view_arm() == v@[j].view_arm(),
        decreases v@.len() - i,
    {
        proof {
            assert(decreases_to!(*v => v[i as int]));
        }
        let arm = copy_arm(&v[i]);
        r.push(arm);
        i = i + 1;
    }
    assert forall|j: int| 0 <= j < v@.len() implies #[trigger] arm_list_view(&r)[j] == arm_list_view(v)[j] by {
        assert(r@[j].view_arm() == v@[j].view_arm());
    }
    assert(arm_list_view(&r) =~= arm_list_view(v));
    r
}

fn copy_select(p: &SelectStatementPlan) -> (r: SelectStatementPlan)
    ensures
        r.view_select() == p.view_select(),
    decreases p,
{
    SelectStatementPlan {
        setup: copy_statements(&p.setup),
        retry_loop: p.retry_loop,
        arms: copy_arms(&p.arms),
        postlude: copy_statements(&p.postlude),
    }
}

fn copy_header(h: &LoopHeader) -> (r: LoopHeader)
    ensures
        header_view(&r) == header_view(h),
    decreases h,
{
    match h {
        LoopHeader::Infinite => LoopHeader::Infinite,
        LoopHeader::While(c) => LoopHeader::While(copy_expr(c)),
        LoopHeader::Range { key, value, iterable } => LoopHeader::Range {
            key: copy_opt_text(key),
            value: copy_opt_text(value),
            iterable: copy_expr(iterable),
        },
        LoopHeader::Counted { variable, start, condition } => LoopHeader::Counted {
            variable: copy_text(variable),
            start: copy_expr(start),
            condition: copy_opt_expr(condition),
        },
    }
}

fn copy_loop(p: &LoopPlan) -> (r: LoopPlan)
    ensures
        r.view_loop() == p.view_loop(),
    decreases p,
{
    let r = LoopPlan {
        prologue: copy_statements(&p.prologue),
        kind: match &p.kind {
            LoopKind::Source { label } => LoopKind::Source { label: copy_opt_text(label) },
            LoopKind::Generated { label } => LoopKind::Generated { label: copy_opt_text(label) },
        },
        header: copy_header(&p.header),
        body: copy_block(&p.body),
    };
    assert(header_view(&r.header) == header_view(&p.header));
    r
}

fn copy_if(p: &IfPlan) -> (r: IfPlan)
    ensures
        r@ == p@,
    decreases p,
{
    let initializer = match &p.initializer {
        Some(d) => Some(copy_def(d)),
        None => None,
    };
    IfPlan {
        condition_setup: copy_statements(&p.condition_setup),
        initializer,
        condition: copy_expr(&p.condition),
        then_body: copy_block(&p.then_body),
        else_arm: copy_else(&p.else_arm),
    }
}

fn copy_else(a: &ElseArm) -> (r: ElseArm)
    ensures
        r.view_else() == a.view_else(),
    decreases a,
{
    match a {
        ElseArm::NoElse => ElseArm::NoElse,
        ElseArm::ElseIf(inner) => ElseArm::ElseIf(Box::new(copy_if(inner))),
        ElseArm::Else { body, inline } => ElseArm::Else { body: copy_block(body), inline: *inline },
    }
}

fn copy_const(plan: &ConstPlan) -> (r: ConstPlan)
    ensures
        r.is_const == plan.is_const,
        r.name@ == plan.name@,
        r.ty_str@ == plan.ty_str@,
        r.value@ == plan.value@,
    decreases plan,
{
    ConstPlan {
        is_const: plan.is_const,
        name: copy_text(&plan.name),
        ty_str: copy_text(&plan.ty_str),
        value: copy_expr(&plan.value),
    }
}

fn copy_transfer(t: &LoopTransfer) -> (r: LoopTransfer)
    ensures
        r.view_transfer() == t.view_transfer(),
{
    match t {
        LoopTransfer::Unlabeled => LoopTransfer::Unlabeled,
        LoopTransfer::Source(id) => LoopTransfer::Source(*id),
        LoopTransfer::Labeled(label) => LoopTransfer::Labeled(copy_text(label)),
    }
}

/// A copy of the statement.
pub fn copy_statement(s: &LoweredStatement) -> (r: LoweredStatement)
    ensures
        r@ == s@,
    decreases s,
{
    match s {
        LoweredStatement::If(plan) => LoweredStatement::If(copy_if(plan)),
        LoweredStatement::Loop(plan) => LoweredStatement::Loop(copy_loop(plan)),
        LoweredStatement::Block(b) => LoweredStatement::Block(copy_block(b)),
        LoweredStatement::Body(b) => LoweredStatement::Body(copy_block(b)),
        LoweredStatement::Break(t) => LoweredStatement::Break(copy_transfer(t)),
        LoweredStatement::Continue(t) => LoweredStatement::Continue(copy_transfer(t)),
        LoweredStatement::Const(plan) => LoweredStatement::Const(copy_const(plan)),
        LoweredStatement::Return(values) => LoweredStatement::Return(copy_exprs(values)),
        LoweredStatement::Assign(form) => LoweredStatement::Assign(copy_assign(form)),
        LoweredStatement::Async { keyword, call } => LoweredStatement::Async {
            keyword: copy_text(keyword),
            call: copy_expr(call),
        },
        LoweredStatement::Select(plan) => LoweredStatement::Select(copy_select(plan)),
        LoweredStatement::Switch(plan) => LoweredStatement::Switch(copy_switch(plan)),
        LoweredStatement::WhileLet(b) => LoweredStatement::WhileLet(copy_block(b)),
        LoweredStatement::Define(d) => LoweredStatement::Define(copy_def(d)),
        LoweredStatement::AssignMany { targets, value } => LoweredStatement::AssignMany {
            targets: copy_exprs(targets),
            value: copy_expr(value),
        },
        LoweredStatement::VarDecl { name, go_type, value } => LoweredStatement::VarDecl {
            name: copy_text(name),
            go_type: copy_text(go_type),
            value: copy_opt_expr(value),
        },
        LoweredStatement::Discard(e) => LoweredStatement::Discard(copy_expr(e)),
        LoweredStatement::ExpressionStatement { expression, diverges } => LoweredStatement::ExpressionStatement {
            expression: copy_expr(expression),
            diverges: *diverges,
        },
        LoweredStatement::Directed { directive, inner } => LoweredStatement::Directed {
            directive: copy_text(directive),
            inner: Box::new(copy_statement(inner)),
        },
        LoweredStatement::UnreachablePanic => LoweredStatement::UnreachablePanic,
    }
}

impl Clone for GoExpressionNode {
    fn clone(&self) -> (r: Self)
        ensures
            r@ == self@,
    {
        copy_node(self)
    }
}

impl Clone for CompositeElement {
    fn clone(&self) -> (r: Self)
        ensures
            r@ == self@,
    {
        let key = match &self.key {
            Some(k) => Some(copy_node(k)),
            None => None,
        };
        CompositeElement { key, value: copy_node(&self.value) }
    }
}

impl Clone for GoExpression {
    fn clone(&self) -> (r: Self)
        ensures
            r@ == self@,
    {
        copy_expr(self)
    }
}

impl Clone for ValuePlan {
    fn clone(&self) -> (r: Self)
        ensures
            r@ == self@,
    {
        copy_value(self)
    }
}

impl Clone for LoweredBlock {
    fn clone(&self) -> (r: Self)
        ensures
            r@ == self@,
    {
        copy_block(self)
    }
}

impl Clone for LoweredStatement {
    fn clone(&self) -> (r: Self)
        ensures
            r@ == self@,
    {
        copy_statement(self)
    }
}

impl Clone for Definition {
    fn clone(&self) -> (r: Self)
        ensures
            r@ == self@,
    {
        copy_def(self)
    }
}

impl Clone for ConstPlan {
    fn clone(&self) -> (r: Self)
        ensures
            r.is_const == self.is_const,
            r.name@ == self.name@,
            r.ty_str@ == self.ty_str@,
            r.value@ == self.value@,
    {
        copy_const(self)
    }
}

impl Clone for AssignForm {
    fn clone(&self) -> (r: Self)
        ensures
            r.view_assign() == self.view_assign(),
    {
        copy_assign(self)
    }
}

impl Clone for CompoundKind {
    fn clone(&self) -> (r: Self)
        ensures
            r.view_compound() == self.view_compound(),
    {
        copy_compound(self)
    }
}

impl Clone for SwitchStatementPlan {
    fn clone(&self) -> (r: Self)
        ensures
            r.view_switch() == self.view_switch(),
    {
        copy_switch(self)
    }
}

impl Clone for SwitchKind {
    fn clone(&self) -> (r: Self)
        ensures
            same_switch_kind(r, *self),
    {
        copy_switch_kind(self)
    }
}

impl Clone for SwitchCasePlan {
    fn clone(&self) -> (r: Self)
        ensures
            r.view_case() == self.view_case(),
    {
        copy_case(self)
    }
}

impl Clone for SelectStatementPlan {
    fn clone(&self) -> (r: Self)
        ensures
            r.view_select() == self.view_select(),
    {
        copy_select(self)
    }
}

impl Clone for SelectArmPlan {
    fn clone(&self) -> (r: Self)
        ensures
            r.view_arm() == self.view_arm(),
    {
        copy_arm(self)
    }
}

impl Clone for LoopPlan {
    fn clone(&self) -> (r: Self)
        ensures
            r.view_loop() == self.view_loop(),
    {
        copy_loop(self)
    }
}

impl Clone for LoopHeader {
    fn clone(&self) -> (r: Self)
        ensures
            header_view(&r) == header_view(self),
    {
        copy_header(self)
    }
}

impl Clone for IfPlan {
    fn clone(&self) -> (r: Self)
        ensures
            r@ == self@,
    {
        copy_if(self)
    }
}

impl Clone for ElseArm {
    fn clone(&self) -> (r: Self)
        ensures
            r.view_else() == self.view_else(),
    {
        copy_else(self)
    }
}

} // verus!
