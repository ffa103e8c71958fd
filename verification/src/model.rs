//! The mathematical view of the planner's trees. Every executable tree has a
//! view of the same shape in which text is a `Seq<char>` and lists are `Seq`s;
//! the contracts of the planner speak about these views.

use crate::bodies::{
    AssignForm, CompoundKind, Definition, ElseArm, IfPlan, LoopHeader, LoopId, LoopKind, LoopPlan,
    LoopTransfer, LoweredBlock, LoweredStatement, SelectArmPlan, SelectStatementPlan,
    SwitchCasePlan, SwitchKind, SwitchStatementPlan,
};
use crate::go_expression::{
    Binding, CompositeElement, CompositeLayout, FunctionLiteralLayout, GoExpressionNode, Slot,
    SlotKind,
};
use crate::values::{ConstantKind, EvaluationFacts, GoExpression, ValuePlan};
use vstd::prelude::*;

verus! {

pub enum NodeView {
    Identifier(Seq<char>),
    Qualified { package: Seq<char>, name: Seq<char> },
    Literal(Seq<char>),
    Type(Seq<char>),
    CompositeLiteral {
        go_type: Option<Seq<char>>,
        elements: Seq<ElementView>,
        layout: CompositeLayout,
    },
    Call { callee: Box<NodeView>, arguments: Seq<NodeView> },
    Instantiation { base: Box<NodeView>, type_arguments: Seq<char> },
    Selector { base: Box<NodeView>, field: Seq<char> },
    Index { base: Box<NodeView>, index: Box<NodeView> },
    Slice {
        base: Box<NodeView>,
        low: Option<Box<NodeView>>,
        high: Option<Box<NodeView>>,
        max: Option<Box<NodeView>>,
    },
    TypeAssertion { base: Box<NodeView>, go_type: Seq<char> },
    Unary { operator: Seq<char>, operand: Box<NodeView> },
    AddressOf(Box<NodeView>),
    Dereference(Box<NodeView>),
    Binary { operator: Seq<char>, left: Box<NodeView>, right: Box<NodeView> },
    Conversion { go_type: Seq<char>, operand: Box<NodeView> },
    Spread(Box<NodeView>),
    FunctionLiteral {
        parameters: Seq<ParamView>,
        result: Seq<char>,
        body: Seq<StmtView>,
        layout: FunctionLiteralLayout,
    },
    Empty,
    Verbatim(Seq<char>),
}

pub struct ElementView {
    pub key: Option<NodeView>,
    pub value: NodeView,
}

pub struct ParamView {
    pub name: Seq<char>,
    pub go_type: Seq<char>,
}

pub struct ExprView {
    pub node: NodeView,
    pub constant: Option<ConstantKind>,
}

pub struct ValueView {
    pub setup: Seq<StmtView>,
    pub expression: ExprView,
    pub evaluation: EvaluationFacts,
}

pub enum TransferView {
    Unlabeled,
    Source(LoopId),
    Labeled(Seq<char>),
}

pub struct DefView {
    pub names: Seq<Seq<char>>,
    pub value: ExprView,
}

pub enum StmtView {
    If(IfView),
    Loop(LoopView),
    Block(Seq<StmtView>),
    Body(Seq<StmtView>),
    Break(TransferView),
    Continue(TransferView),
    Const(ConstView),
    Return(Seq<ExprView>),
    Assign(AssignView),
    Async { keyword: Seq<char>, call: ExprView },
    Select(SelectView),
    Switch(SwitchView),
    WhileLet(Seq<StmtView>),
    Define(DefView),
    AssignMany { targets: Seq<ExprView>, value: ExprView },
    VarDecl { name: Seq<char>, go_type: Seq<char>, value: Option<ExprView> },
    Discard(ExprView),
    ExpressionStatement { expression: ExprView, diverges: bool },
    Directed { directive: Seq<char>, inner: Box<StmtView> },
    UnreachablePanic,
}

pub struct ConstView {
    pub is_const: bool,
    pub name: Seq<char>,
    pub ty_str: Seq<char>,
    pub value: ExprView,
}

pub enum AssignView {
    Compound { target_capture: Seq<StmtView>, target: ExprView, kind: CompoundView },
    Simple { target_capture: Seq<StmtView>, target: ExprView, value: ValueView },
}

pub enum CompoundView {
    Increment,
    Decrement,
    OpAssign { op_text: Seq<char>, rhs: ValueView, pinned_left: Option<ExprView> },
}

pub struct SwitchView {
    pub kind: SwitchKindView,
    pub cases: Seq<CaseView>,
    pub default: Option<Seq<StmtView>>,
    pub postlude: Seq<StmtView>,
}

pub enum SwitchKindView {
    Conditional,
    Value { subject: ExprView },
    Type { subject: ExprView, binding: Option<Seq<char>> },
}

pub struct CaseView {
    pub labels: Seq<ExprView>,
    pub body: Seq<StmtView>,
}

pub struct SelectView {
    pub setup: Seq<StmtView>,
    pub retry_loop: bool,
    pub arms: Seq<ArmView>,
    pub postlude: Seq<StmtView>,
}

pub enum ArmView {
    Receive { receive_vars: Option<Seq<char>>, channel: ExprView, body: Seq<StmtView> },
    Send { channel: ExprView, value: ExprView, body: Seq<StmtView> },
    Default { body: Seq<StmtView> },
}

pub struct LoopView {
    pub prologue: Seq<StmtView>,
    pub kind: LoopKindView,
    pub header: HeaderView,
    pub body: Seq<StmtView>,
}

pub enum HeaderView {
    Infinite,
    While(ExprView),
    Range { key: Option<Seq<char>>, value: Option<Seq<char>>, iterable: ExprView },
    Counted { variable: Seq<char>, start: ExprView, condition: Option<ExprView> },
}

pub enum LoopKindView {
    Source { label: Option<Seq<char>> },
    Generated { label: Option<Seq<char>> },
}

pub struct IfView {
    pub condition_setup: Seq<StmtView>,
    pub initializer: Option<DefView>,
    pub condition: ExprView,
    pub then_body: Seq<StmtView>,
    pub else_arm: ElseView,
}

pub enum ElseView {
    NoElse,
    ElseIf(Box<IfView>),
    Else { body: Seq<StmtView>, inline: bool },
}

pub open spec fn opt_text(s: Option<String>) -> Option<Seq<char>> {
    match s {
        Some(t) => Some(t@),
        None => None,
    }
}

pub open spec fn texts(s: Seq<String>) -> Seq<Seq<char>> {
    Seq::new(s.len(), |i: int| s[i]@)
}

impl GoExpressionNode {
    pub open spec fn view_node(&self) -> NodeView
        decreases self,
    {
        match self {
            GoExpressionNode::Identifier(t) => NodeView::Identifier(t@),
            GoExpressionNode::Qualified { package, name } => NodeView::Qualified {
                package: package@,
                name: name@,
            },
            GoExpressionNode::Literal(t) => NodeView::Literal(t@),
            GoExpressionNode::Type(t) => NodeView::Type(t@),
            GoExpressionNode::CompositeLiteral { go_type, elements, layout } => {
                NodeView::CompositeLiteral {
                    go_type: opt_text(*go_type),
                    elements: Seq::new(
                        elements@.len(),
                        |i: int|
                            if 0 <= i < elements@.len() {
                                elements@[i].view_element()
                            } else {
                                ElementView { key: None, value: NodeView::Empty }
                            },
                    ),
                    layout: *layout,
                }
            },
            GoExpressionNode::Call { callee, arguments } => NodeView::Call {
                callee: Box::new(callee.view_node()),
                arguments: Seq::new(
                    arguments@.len(),
                    |i: int|
                        if 0 <= i < arguments@.len() {
                            arguments@[i].view_node()
                        } else {
                            NodeView::Empty
                        },
                ),
            },
            GoExpressionNode::Instantiation { base, type_arguments } => NodeView::Instantiation {
                base: Box::new(base.view_node()),
                type_arguments: type_arguments@,
            },
            GoExpressionNode::Selector { base, field } => NodeView::Selector {
                base: Box::new(base.view_node()),
                field: field@,
            },
            GoExpressionNode::Index { base, index } => NodeView::Index {
                base: Box::new(base.view_node()),
                index: Box::new(index.view_node()),
            },
            GoExpressionNode::Slice { base, low, high, max } => NodeView::Slice {
                base: Box::new(base.view_node()),
                low: match low {
                    Some(b) => Some(Box::new(b.view_node())),
                    None => None,
                },
                high: match high {
                    Some(b) => Some(Box::new(b.view_node())),
                    None => None,
                },
                max: match max {
                    Some(b) => Some(Box::new(b.view_node())),
                    None => None,
                },
            },
            GoExpressionNode::TypeAssertion { base, go_type } => NodeView::TypeAssertion {
                base: Box::new(base.view_node()),
                go_type: go_type@,
            },
            GoExpressionNode::Unary { operator, operand } => NodeView::Unary {
                operator: operator@,
                operand: Box::new(operand.view_node()),
            },
            GoExpressionNode::AddressOf(o) => NodeView::AddressOf(Box::new(o.view_node())),
            GoExpressionNode::Dereference(o) => NodeView::Dereference(Box::new(o.view_node())),
            GoExpressionNode::Binary { operator, left, right } => NodeView::Binary {
                operator: operator@,
                left: Box::new(left.view_node()),
                right: Box::new(right.view_node()),
            },
            GoExpressionNode::Conversion { go_type, operand } => NodeView::Conversion {
                go_type: go_type@,
                operand: Box::new(operand.view_node()),
            },
            GoExpressionNode::Spread(o) => NodeView::Spread(Box::new(o.view_node())),
            GoExpressionNode::FunctionLiteral { parameters, result, body, layout } => {
                NodeView::FunctionLiteral {
                    parameters: Seq::new(
                        parameters@.len(),
                        |i: int| ParamView { name: parameters@[i].name@, go_type: parameters@[i].go_type@ },
                    ),
                    result: result@,
                    body: body.view_block(),
                    layout: *layout,
                }
            },
            GoExpressionNode::Empty => NodeView::Empty,
            GoExpressionNode::Verbatim(t) => NodeView::Verbatim(t@),
        }
    }
}

pub open spec fn bound_view(bound: &Option<Box<GoExpressionNode>>) -> Option<Box<NodeView>> {
    match bound {
        Some(b) => Some(Box::new(b.view_node())),
        None => None,
    }
}

impl CompositeElement {
    pub open spec fn view_element(&self) -> ElementView
        decreases self,
    {
        ElementView {
            key: match &self.key {
                Some(k) => Some(k.view_node()),
                None => None,
            },
            value: self.value.view_node(),
        }
    }
}

impl GoExpression {
    pub open spec fn view_expr(&self) -> ExprView
        decreases self,
    {
        ExprView { node: self.node.view_node(), constant: self.constant }
    }
}

impl ValuePlan {
    pub open spec fn view_value(&self) -> ValueView
        decreases self,
    {
        ValueView {
            setup: stmt_list_view(&self.setup),
            expression: self.expression.view_expr(),
            evaluation: self.evaluation,
        }
    }
}

impl LoweredBlock {
    pub open spec fn view_block(&self) -> Seq<StmtView>
        decreases self,
    {
        stmt_list_view(&self.statements)
    }
}

impl LoopTransfer {
    pub open spec fn view_transfer(&self) -> TransferView {
        match self {
            LoopTransfer::Unlabeled => TransferView::Unlabeled,
            LoopTransfer::Source(id) => TransferView::Source(*id),
            LoopTransfer::Labeled(label) => TransferView::Labeled(label@),
        }
    }
}

impl Definition {
    pub open spec fn view_def(&self) -> DefView
        decreases self,
    {
        DefView { names: texts(self.names@), value: self.value.view_expr() }
    }
}

pub open spec fn stmt_list_view(v: &Vec<LoweredStatement>) -> Seq<StmtView>
    decreases v,
{
    Seq::new(
        v@.len(),
        |i: int|
            if 0 <= i < v@.len() {
                v@[i].view_stmt()
            } else {
                StmtView::UnreachablePanic
            },
    )
}

pub open spec fn expr_list_view(v: &Vec<GoExpression>) -> Seq<ExprView>
    decreases v,
{
    Seq::new(
        v@.len(),
        |i: int|
            if 0 <= i < v@.len() {
                v@[i].view_expr()
            } else {
                ExprView { node: NodeView::Empty, constant: None }
            },
    )
}

pub open spec fn arm_list_view(v: &Vec<SelectArmPlan>) -> Seq<ArmView>
    decreases v,
{
    Seq::new(
        v@.len(),
        |i: int|
            if 0 <= i < v@.len() {
                v@[i].view_arm()
            } else {
                ArmView::Default { body: Seq::empty() }
            },
    )
}

pub open spec fn case_list_view(v: &Vec<SwitchCasePlan>) -> Seq<CaseView>
    decreases v,
{
    Seq::new(
        v@.len(),
        |i: int|
            if 0 <= i < v@.len() {
                v@[i].view_case()
            } else {
                CaseView { labels: Seq::empty(), body: Seq::empty() }
            },
    )
}

impl LoweredStatement {
    pub open spec fn view_stmt(&self) -> StmtView
        decreases self,
    {
        match self {
            LoweredStatement::If(plan) => StmtView::If(plan.view_if()),
            LoweredStatement::Loop(plan) => StmtView::Loop(plan.view_loop()),
            LoweredStatement::Block(b) => StmtView::Block(b.view_block()),
            LoweredStatement::Body(b) => StmtView::Body(b.view_block()),
            LoweredStatement::Break(t) => StmtView::Break(t.view_transfer()),
            LoweredStatement::Continue(t) => StmtView::Continue(t.view_transfer()),
            LoweredStatement::Const(plan) => StmtView::Const(
                ConstView {
                    is_const: plan.is_const,
                    name: plan.name@,
                    ty_str: plan.ty_str@,
                    value: plan.value.view_expr(),
                },
            ),
            LoweredStatement::Return(values) => StmtView::Return(expr_list_view(values)),
            LoweredStatement::Assign(form) => StmtView::Assign(form.view_assign()),
            LoweredStatement::Async { keyword, call } => StmtView::Async {
                keyword: keyword@,
                call: call.view_expr(),
            },
            LoweredStatement::Select(plan) => StmtView::Select(plan.view_select()),
            LoweredStatement::Switch(plan) => StmtView::Switch(plan.view_switch()),
            LoweredStatement::WhileLet(b) => StmtView::WhileLet(b.view_block()),
            LoweredStatement::Define(d) => StmtView::Define(d.view_def()),
            LoweredStatement::AssignMany { targets, value } => StmtView::AssignMany {
                targets: expr_list_view(targets),
                value: value.view_expr(),
            },
            LoweredStatement::VarDecl { name, go_type, value } => StmtView::VarDecl {
                name: name@,
                go_type: go_type@,
                value: match value {
                    Some(v) => Some(v.view_expr()),
                    None => None,
                },
            },
            LoweredStatement::Discard(e) => StmtView::Discard(e.view_expr()),
            LoweredStatement::ExpressionStatement { expression, diverges } => {
                StmtView::ExpressionStatement { expression: expression.view_expr(), diverges: *diverges }
            },
            LoweredStatement::Directed { directive, inner } => StmtView::Directed {
                directive: directive@,
                inner: Box::new(inner.view_stmt()),
            },
            LoweredStatement::UnreachablePanic => StmtView::UnreachablePanic,
        }
    }
}

impl AssignForm {
    pub open spec fn view_assign(&self) -> AssignView
        decreases self,
    {
        match self {
            AssignForm::Compound { target_capture, target, kind } => AssignView::Compound {
                target_capture: stmt_list_view(target_capture),
                target: target.view_expr(),
                kind: kind.view_compound(),
            },
            AssignForm::Simple { target_capture, target, value } => AssignView::Simple {
                target_capture: stmt_list_view(target_capture),
                target: target.view_expr(),
                value: value.view_value(),
            },
        }
    }
}

impl CompoundKind {
    pub open spec fn view_compound(&self) -> CompoundView
        decreases self,
    {
        match self {
            CompoundKind::Increment => CompoundView::Increment,
            CompoundKind::Decrement => CompoundView::Decrement,
            CompoundKind::OpAssign { op_text, rhs, pinned_left } => CompoundView::OpAssign {
                op_text: op_text@,
                rhs: rhs.view_value(),
                pinned_left: match pinned_left {
                    Some(e) => Some(e.view_expr()),
                    None => None,
                },
            },
        }
    }
}

impl SwitchStatementPlan {
    pub open spec fn view_switch(&self) -> SwitchView
        decreases self,
    {
        SwitchView {
            kind: match &self.kind {
                SwitchKind::Conditional => SwitchKindView::Conditional,
                SwitchKind::Value { subject } => SwitchKindView::Value { subject: subject.view_expr() },
                SwitchKind::Type { subject, binding } => SwitchKindView::Type {
                    subject: subject.view_expr(),
                    binding: opt_text(*binding),
                },
            },
            cases: case_list_view(&self.cases),
            default: match &self.default {
                Some(b) => Some(b.view_block()),
                None => None,
            },
            postlude: stmt_list_view(&self.postlude),
        }
    }
}

impl SwitchCasePlan {
    pub open spec fn view_case(&self) -> CaseView
        decreases self,
    {
        CaseView { labels: expr_list_view(&self.labels), body: self.body.view_block() }
    }
}

impl SelectStatementPlan {
    pub open spec fn view_select(&self) -> SelectView
        decreases self,
    {
        SelectView {
            setup: stmt_list_view(&self.setup),
            retry_loop: self.retry_loop,
            arms: arm_list_view(&self.arms),
            postlude: stmt_list_view(&self.postlude),
        }
    }
}

impl SelectArmPlan {
    pub open spec fn view_arm(&self) -> ArmView
        decreases self,
    {
        match self {
            SelectArmPlan::Receive { receive_vars, channel, body } => ArmView::Receive {
                receive_vars: opt_text(*receive_vars),
                channel: channel.view_expr(),
                body: body.view_block(),
            },
            SelectArmPlan::Send { channel, value, body } => ArmView::Send {
                channel: channel.view_expr(),
                value: value.view_expr(),
                body: body.view_block(),
            },
            SelectArmPlan::Default { body } => ArmView::Default { body: body.view_block() },
        }
    }
}

impl LoopPlan {
    pub open spec fn view_loop(&self) -> LoopView
        decreases self,
    {
        LoopView {
            prologue: stmt_list_view(&self.prologue),
            kind: match &self.kind {
                LoopKind::Source { label } => LoopKindView::Source { label: opt_text(*label) },
                LoopKind::Generated { label } => LoopKindView::Generated { label: opt_text(*label) },
            },
            header: match &self.header {
                LoopHeader::Infinite => HeaderView::Infinite,
                LoopHeader::While(c) => HeaderView::While(c.view_expr()),
                LoopHeader::Range { key, value, iterable } => HeaderView::Range {
                    key: opt_text(*key),
                    value: opt_text(*value),
                    iterable: iterable.view_expr(),
                },
                LoopHeader::Counted { variable, start, condition } => HeaderView::Counted {
                    variable: variable@,
                    start: start.view_expr(),
                    condition: match condition {
                        Some(c) => Some(c.view_expr()),
                        None => None,
                    },
                },
            },
            body: self.body.view_block(),
        }
    }
}

/// The view of a loop header, as `view_loop` gives it.
pub open spec fn header_view(header: &LoopHeader) -> HeaderView {
    match header {
        LoopHeader::Infinite => HeaderView::Infinite,
        LoopHeader::While(c) => HeaderView::While(c.view_expr()),
        LoopHeader::Range { key, value, iterable } => HeaderView::Range {
            key: opt_text(*key),
            value: opt_text(*value),
            iterable: iterable.view_expr(),
        },
        LoopHeader::Counted { variable, start, condition } => HeaderView::Counted {
            variable: variable@,
            start: start.view_expr(),
            condition: match condition {
                Some(c) => Some(c.view_expr()),
                None => None,
            },
        },
    }
}

impl IfPlan {
    pub open spec fn view_if(&self) -> IfView
        decreases self,
    {
        IfView {
            condition_setup: stmt_list_view(&self.condition_setup),
            initializer: match &self.initializer {
                Some(d) => Some(d.view_def()),
                None => None,
            },
            condition: self.condition.view_expr(),
            then_body: self.then_body.view_block(),
            else_arm: self.else_arm.view_else(),
        }
    }
}

impl ElseArm {
    pub open spec fn view_else(&self) -> ElseView
        decreases self,
    {
        match self {
            ElseArm::NoElse => ElseView::NoElse,
            ElseArm::ElseIf(inner) => ElseView::ElseIf(Box::new(inner.view_if())),
            ElseArm::Else { body, inline } => ElseView::Else { body: body.view_block(), inline: *inline },
        }
    }
}

impl View for GoExpressionNode {
    type V = NodeView;

    open spec fn view(&self) -> NodeView {
        self.view_node()
    }
}

impl View for CompositeElement {
    type V = ElementView;

    open spec fn view(&self) -> ElementView {
        self.view_element()
    }
}

impl View for GoExpression {
    type V = ExprView;

    open spec fn view(&self) -> ExprView {
        self.view_expr()
    }
}

impl View for ValuePlan {
    type V = ValueView;

    open spec fn view(&self) -> ValueView {
        self.view_value()
    }
}

impl View for LoweredBlock {
    type V = Seq<StmtView>;

    open spec fn view(&self) -> Seq<StmtView> {
        self.view_block()
    }
}

impl View for LoweredStatement {
    type V = StmtView;

    open spec fn view(&self) -> StmtView {
        self.view_stmt()
    }
}

impl View for Definition {
    type V = DefView;

    open spec fn view(&self) -> DefView {
        self.view_def()
    }
}

impl View for IfPlan {
    type V = IfView;

    open spec fn view(&self) -> IfView {
        self.view_if()
    }
}



// ---------------------------------------------------------------------------
// Renaming one identifier
// ---------------------------------------------------------------------------

pub open spec fn rename_opt(node: Option<Box<NodeView>>, from: Seq<char>, to: Seq<char>) -> Option<
    Box<NodeView>,
>
    decreases node,
{
    match node {
        Some(n) => Some(Box::new(rename_node(*n, from, to))),
        None => None,
    }
}

pub open spec fn rename_element(element: ElementView, from: Seq<char>, to: Seq<char>) -> ElementView
    decreases element,
{
    ElementView {
        key: match element.key {
            Some(k) => Some(rename_node(k, from, to)),
            None => None,
        },
        value: rename_node(element.value, from, to),
    }
}

/// The node with every identifier `from` outside function literals renamed
/// to `to`.
pub open spec fn rename_node(node: NodeView, from: Seq<char>, to: Seq<char>) -> NodeView
    decreases node,
{
    match node {
        NodeView::Identifier(t) => if t == from {
            NodeView::Identifier(to)
        } else {
            node
        },
        NodeView::CompositeLiteral { go_type, elements, layout } => NodeView::CompositeLiteral {
            go_type,
            elements: Seq::new(
                elements.len(),
                |i: int|
                    if 0 <= i < elements.len() {
                        rename_element(elements[i], from, to)
                    } else {
                        ElementView { key: None, value: NodeView::Empty }
                    },
            ),
            layout,
        },
        NodeView::Call { callee, arguments } => NodeView::Call {
            callee: Box::new(rename_node(*callee, from, to)),
            arguments: Seq::new(
                arguments.len(),
                |i: int|
                    if 0 <= i < arguments.len() {
                        rename_node(arguments[i], from, to)
                    } else {
                        NodeView::Empty
                    },
            ),
        },
        NodeView::Instantiation { base, type_arguments } => NodeView::Instantiation {
            base: Box::new(rename_node(*base, from, to)),
            type_arguments,
        },
        NodeView::Selector { base, field } => NodeView::Selector {
            base: Box::new(rename_node(*base, from, to)),
            field,
        },
        NodeView::Index { base, index } => NodeView::Index {
            base: Box::new(rename_node(*base, from, to)),
            index: Box::new(rename_node(*index, from, to)),
        },
        NodeView::Slice { base, low, high, max } => NodeView::Slice {
            base: Box::new(rename_node(*base, from, to)),
            low: rename_opt(low, from, to),
            high: rename_opt(high, from, to),
            max: rename_opt(max, from, to),
        },
        NodeView::TypeAssertion { base, go_type } => NodeView::TypeAssertion {
            base: Box::new(rename_node(*base, from, to)),
            go_type,
        },
        NodeView::Unary { operator, operand } => NodeView::Unary {
            operator,
            operand: Box::new(rename_node(*operand, from, to)),
        },
        NodeView::AddressOf(operand) => NodeView::AddressOf(Box::new(rename_node(*operand, from, to))),
        NodeView::Dereference(operand) => NodeView::Dereference(
            Box::new(rename_node(*operand, from, to)),
        ),
        NodeView::Binary { operator, left, right } => NodeView::Binary {
            operator,
            left: Box::new(rename_node(*left, from, to)),
            right: Box::new(rename_node(*right, from, to)),
        },
        NodeView::Conversion { go_type, operand } => NodeView::Conversion {
            go_type,
            operand: Box::new(rename_node(*operand, from, to)),
        },
        NodeView::Spread(operand) => NodeView::Spread(Box::new(rename_node(*operand, from, to))),
        _ => node,
    }
}

// ---------------------------------------------------------------------------
// What an expression does and how it is written
// ---------------------------------------------------------------------------

pub open spec fn free_slot() -> Slot {
    Slot { kind: SlotKind::Free, header: false }
}

pub open spec fn header_slot() -> Slot {
    Slot { kind: SlotKind::Free, header: true }
}

pub open spec fn slot_with(slot: Slot, kind: SlotKind) -> Slot {
    Slot { kind, header: slot.header }
}

/// Go's binary precedence: 5 binds tightest, 1 loosest, 0 for anything else.
pub open spec fn binary_level(operator: Seq<char>) -> u8 {
    if operator == "*"@ || operator == "/"@ || operator == "%"@ || operator == "<<"@ || operator
        == ">>"@ || operator == "&"@ || operator == "&^"@ {
        5
    } else if operator == "+"@ || operator == "-"@ || operator == "|"@ || operator == "^"@ {
        4
    } else if operator == "=="@ || operator == "!="@ || operator == "<"@ || operator == "<="@
        || operator == ">"@ || operator == ">="@ {
        3
    } else if operator == "&&"@ {
        2
    } else if operator == "||"@ {
        1
    } else {
        0
    }
}

/// The first character of `text`, or a space when there is none.
pub open spec fn first_or_space(text: Seq<char>) -> char {
    if text.len() > 0 {
        text[0]
    } else {
        ' '
    }
}

/// A type that must be parenthesized to be converted to: one that starts with
/// `*`, `<-` or `func`.
pub open spec fn conversion_type_needs_parens(go_type: Seq<char>) -> bool {
    (go_type.len() > 0 && go_type[0] == '*') || (go_type.len() > 0 && go_type[0] == '<') || (
    go_type.len() >= 4 && go_type.take(4) == "func"@)
}

/// `T(x)`, with the type in parentheses where Go needs them.
pub open spec fn conversion_text(go_type: Seq<char>, operand: Seq<char>) -> Seq<char> {
    if conversion_type_needs_parens(go_type) {
        "("@ + go_type + ")("@ + operand + ")"@
    } else {
        go_type + "("@ + operand + ")"@
    }
}

pub open spec fn opt_works(node: Option<Box<NodeView>>) -> bool
    decreases node,
{
    match node {
        Some(n) => n.does_work(),
        None => false,
    }
}

pub open spec fn element_values_work(elements: Seq<ElementView>) -> bool
    decreases elements,
{
    if elements.len() == 0 {
        false
    } else {
        element_values_work(elements.drop_last()) || elements.last().value.does_work()
    }
}

impl NodeView {
    /// The node holds a call or a type assertion. A function literal only
    /// defines code.
    pub open spec fn does_work(self) -> bool
        decreases self,
    {
        match self {
            NodeView::Identifier(_)
            | NodeView::Qualified { .. }
            | NodeView::Literal(_)
            | NodeView::Type(_)
            | NodeView::Empty
            | NodeView::Verbatim(_)
            | NodeView::FunctionLiteral { .. } => false,
            NodeView::Call { .. } | NodeView::TypeAssertion { .. } => true,
            NodeView::CompositeLiteral { elements, .. } => element_values_work(elements),
            NodeView::Instantiation { base, .. } | NodeView::Selector { base, .. } => base.does_work(),
            NodeView::Index { base, index } => base.does_work() || index.does_work(),
            NodeView::Slice { base, low, high, max } => base.does_work() || opt_works(low)
                || opt_works(high) || opt_works(max),
            NodeView::Unary { operand, .. }
            | NodeView::Conversion { operand, .. }
            | NodeView::AddressOf(operand)
            | NodeView::Dereference(operand)
            | NodeView::Spread(operand) => operand.does_work(),
            NodeView::Binary { left, right, .. } => left.does_work() || right.does_work(),
        }
    }

    pub open spec fn binding(self) -> Binding {
        match self {
            NodeView::Literal(text) => if text.len() > 0 && (text[0] == '-' || text[0] == '+') {
                Binding::Prefix(text[0])
            } else {
                Binding::Primary
            },
            NodeView::Unary { operator, .. } => Binding::Prefix(first_or_space(operator)),
            NodeView::AddressOf(_) => Binding::Prefix('&'),
            NodeView::Dereference(_) => Binding::Prefix('*'),
            NodeView::Binary { operator, .. } => Binding::Binary(binary_level(operator)),
            NodeView::Verbatim(_) => Binding::Unknown,
            _ => Binding::Primary,
        }
    }

    /// Whether the node needs parentheses when written into `slot`.
    pub open spec fn needs_parens(self, slot: Slot) -> bool {
        if slot.header && (self matches NodeView::CompositeLiteral { go_type: Some(_), .. }) {
            true
        } else {
            match (self.binding(), slot.kind) {
                (Binding::Unknown, SlotKind::Free) => false,
                (Binding::Unknown, _) => true,
                (Binding::Primary, SlotKind::Postfix) => self is Literal || self is FunctionLiteral,
                (Binding::Primary, _) => false,
                (Binding::Prefix(sign), SlotKind::Prefix(operator)) => sign == operator && (sign
                    == '-' || sign == '+' || sign == '&'),
                (Binding::Prefix(_), SlotKind::Callee) => true,
                (Binding::Prefix(_), SlotKind::Postfix) => true,
                (Binding::Prefix(_), _) => false,
                (Binding::Binary(level), SlotKind::Left(parent)) => level < parent,
                (Binding::Binary(level), SlotKind::Right(parent)) => level <= parent,
                (Binding::Binary(_), SlotKind::Free) => false,
                (Binding::Binary(_), _) => true,
            }
        }
    }

    /// The Go text of the node written into `slot`.
    pub open spec fn text(self, slot: Slot) -> Seq<char>
        decreases self, 0nat,
    {
        match self {
            NodeView::Identifier(t) => t,
            NodeView::Literal(t) => t,
            NodeView::Type(t) => t,
            NodeView::Verbatim(t) => t,
            NodeView::Qualified { package, name } => package + "."@ + name,
            NodeView::Empty => Seq::empty(),
            NodeView::CompositeLiteral { go_type, elements, layout } => {
                let prefix = match go_type {
                    Some(t) => t,
                    None => Seq::empty(),
                };
                prefix + if elements.len() == 0 {
                    "{}"@
                } else {
                    match layout {
                        CompositeLayout::Inline { padded } => {
                            let padding = if padded {
                                " "@
                            } else {
                                Seq::empty()
                            };
                            "{"@ + padding + inline_elements_text(elements) + padding + "}"@
                        },
                        CompositeLayout::MultiLine { indented } => "{\n"@ + multiline_elements_text(
                            elements,
                            indented,
                        ) + "}"@,
                    }
                }
            },
            NodeView::Call { callee, arguments } => child_text(
                *callee,
                slot_with(slot, SlotKind::Callee),
            ) + "("@ + comma_text(arguments) + ")"@,
            NodeView::Instantiation { base, type_arguments } => child_text(
                *base,
                slot_with(slot, SlotKind::Postfix),
            ) + type_arguments,
            NodeView::Selector { base, field } => child_text(*base, slot_with(slot, SlotKind::Postfix))
                + "."@ + field,
            NodeView::Index { base, index } => child_text(*base, slot_with(slot, SlotKind::Postfix))
                + "["@ + index.text(free_slot()) + "]"@,
            NodeView::Slice { base, low, high, max } => child_text(
                *base,
                slot_with(slot, SlotKind::Postfix),
            ) + "["@ + bound_text(low) + ":"@ + bound_text(high) + match max {
                Some(m) => ":"@ + m.text(free_slot()),
                None => Seq::empty(),
            } + "]"@,
            NodeView::TypeAssertion { base, go_type } => child_text(
                *base,
                slot_with(slot, SlotKind::Postfix),
            ) + ".("@ + go_type + ")"@,
            NodeView::Unary { operator, operand } => operator + child_text(
                *operand,
                slot_with(slot, SlotKind::Prefix(first_or_space(operator))),
            ),
            NodeView::AddressOf(operand) => "&"@ + child_text(
                *operand,
                slot_with(slot, SlotKind::Prefix('&')),
            ),
            NodeView::Dereference(operand) => "*"@ + child_text(
                *operand,
                slot_with(slot, SlotKind::Prefix('*')),
            ),
            NodeView::Binary { operator, left, right } => child_text(
                *left,
                slot_with(slot, SlotKind::Left(binary_level(operator))),
            ) + " "@ + operator + " "@ + child_text(
                *right,
                slot_with(slot, SlotKind::Right(binary_level(operator))),
            ),
            NodeView::Conversion { go_type, operand } => conversion_text(
                go_type,
                operand.text(free_slot()),
            ),
            NodeView::Spread(operand) => child_text(*operand, slot_with(slot, SlotKind::Postfix))
                + "..."@,
            NodeView::FunctionLiteral { parameters, result, body, layout } => "func("@
                + parameters_text(parameters) + ")"@ + if result.len() > 0 {
                " "@ + result
            } else {
                Seq::empty()
            } + " {"@ + function_body_text(body, layout),
        }
    }
}

/// A child written where its parent puts it, parenthesized where needed.
pub open spec fn child_text(child: NodeView, slot: Slot) -> Seq<char>
    decreases child, 1nat,
{
    if child.needs_parens(slot) {
        "("@ + child.text(free_slot()) + ")"@
    } else {
        child.text(slot)
    }
}

pub open spec fn bound_text(bound: Option<Box<NodeView>>) -> Seq<char>
    decreases bound, 0nat,
{
    match bound {
        Some(b) => b.text(free_slot()),
        None => Seq::empty(),
    }
}

/// Nodes written one after another, separated by `, `.
pub open spec fn comma_text(nodes: Seq<NodeView>) -> Seq<char>
    decreases nodes, 0nat,
{
    if nodes.len() == 0 {
        Seq::empty()
    } else if nodes.len() == 1 {
        nodes[0].text(free_slot())
    } else {
        comma_text(nodes.drop_last()) + ", "@ + nodes.last().text(free_slot())
    }
}

pub open spec fn element_text(element: ElementView) -> Seq<char>
    decreases element, 0nat,
{
    match element.key {
        Some(key) => key.text(free_slot()) + ": "@ + element.value.text(free_slot()),
        None => element.value.text(free_slot()),
    }
}

pub open spec fn inline_elements_text(elements: Seq<ElementView>) -> Seq<char>
    decreases elements, 0nat,
{
    if elements.len() == 0 {
        Seq::empty()
    } else if elements.len() == 1 {
        element_text(elements[0])
    } else {
        inline_elements_text(elements.drop_last()) + ", "@ + element_text(elements.last())
    }
}

pub open spec fn multiline_elements_text(elements: Seq<ElementView>, indented: bool) -> Seq<char>
    decreases elements, 0nat,
{
    if elements.len() == 0 {
        Seq::empty()
    } else {
        multiline_elements_text(elements.drop_last(), indented) + if indented {
            "\t"@
        } else {
            Seq::empty()
        } + element_text(elements.last()) + ",\n"@
    }
}

pub open spec fn parameters_text(parameters: Seq<ParamView>) -> Seq<char>
    decreases parameters.len(),
{
    if parameters.len() == 0 {
        Seq::empty()
    } else if parameters.len() == 1 {
        parameters[0].name + " "@ + parameters[0].go_type
    } else {
        parameters_text(parameters.drop_last()) + ", "@ + parameters.last().name + " "@
            + parameters.last().go_type
    }
}

/// `text` without its trailing newlines.
pub open spec fn trim_newlines(text: Seq<char>) -> Seq<char>
    decreases text.len(),
{
    if text.len() > 0 && text.last() == '\n' {
        trim_newlines(text.drop_last())
    } else {
        text
    }
}

/// Whether every statement of `body` renders on one line.
pub open spec fn renders_single_lines(body: Seq<StmtView>) -> bool
    decreases body, 1nat,
{
    if body.len() == 0 {
        true
    } else {
        renders_single_lines(body.drop_last()) && !trim_newlines(body.last().rendered()).contains(
            '\n',
        )
    }
}

/// The statements of `body` on one line, joined by `; `.
pub open spec fn joined_statements(body: Seq<StmtView>) -> Seq<char>
    decreases body, 1nat,
{
    if body.len() == 0 {
        Seq::empty()
    } else if body.len() == 1 {
        trim_newlines(body[0].rendered())
    } else {
        joined_statements(body.drop_last()) + "; "@ + trim_newlines(body.last().rendered())
    }
}

/// What follows `func(..) result {`: the body on one line for an inline
/// literal whose statements each fit on a line, else one statement per line.
pub open spec fn function_body_text(body: Seq<StmtView>, layout: FunctionLiteralLayout) -> Seq<
    char,
>
    decreases body, 2nat,
{
    if layout == FunctionLiteralLayout::Inline && renders_single_lines(body) {
        let joined = joined_statements(body);
        if joined.len() > 0 {
            " "@ + joined + " }"@
        } else {
            "}"@
        }
    } else {
        "\n"@ + lines_text(body) + "}"@
    }
}

// ---------------------------------------------------------------------------
// How a statement is rendered
// ---------------------------------------------------------------------------

pub open spec fn expr_text(e: ExprView) -> Seq<char>
    decreases e, 0nat,
{
    e.node.text(free_slot())
}

pub open spec fn header_text(e: ExprView) -> Seq<char>
    decreases e, 0nat,
{
    e.node.text(header_slot())
}

/// Expressions written one after another, separated by `, `.
pub open spec fn exprs_text(es: Seq<ExprView>) -> Seq<char>
    decreases es, 0nat,
{
    if es.len() == 0 {
        Seq::empty()
    } else if es.len() == 1 {
        expr_text(es[0])
    } else {
        exprs_text(es.drop_last()) + ", "@ + expr_text(es.last())
    }
}

pub open spec fn names_text(names: Seq<Seq<char>>) -> Seq<char>
    decreases names.len(),
{
    if names.len() == 0 {
        Seq::empty()
    } else if names.len() == 1 {
        names[0]
    } else {
        names_text(names.drop_last()) + ", "@ + names.last()
    }
}

/// The statements rendered one after another.
pub open spec fn lines_text(body: Seq<StmtView>) -> Seq<char>
    decreases body, 1nat,
{
    if body.len() == 0 {
        Seq::empty()
    } else {
        lines_text(body.drop_last()) + body.last().rendered()
    }
}

pub open spec fn transfer_text(t: TransferView) -> Seq<char> {
    match t {
        TransferView::Labeled(label) => " "@ + label,
        _ => Seq::empty(),
    }
}

pub open spec fn opt_expr_text(e: Option<ExprView>) -> Seq<char>
    decreases e, 0nat,
{
    match e {
        Some(e) => header_text(e),
        None => Seq::empty(),
    }
}

pub open spec fn loop_header_text(header: HeaderView) -> Seq<char>
    decreases header, 0nat,
{
    match header {
        HeaderView::Infinite => Seq::empty(),
        HeaderView::While(c) => " "@ + header_text(c),
        HeaderView::Range { key, value, iterable } => match (key, value) {
            (None, None) => " range "@ + header_text(iterable),
            (Some(k), None) => " "@ + k + " := range "@ + header_text(iterable),
            (k, Some(v)) => " "@ + match k {
                Some(k) => k,
                None => "_"@,
            } + ", "@ + v + " := range "@ + header_text(iterable),
        },
        HeaderView::Counted { variable, start, condition } => " "@ + variable + " := "@
            + header_text(start) + "; "@ + opt_expr_text(condition) + "; "@ + variable + "++"@,
    }
}

pub open spec fn label_text(kind: LoopKindView) -> Seq<char> {
    match kind {
        LoopKindView::Source { label: Some(l) } | LoopKindView::Generated { label: Some(l) } => l
            + ":\n"@,
        _ => Seq::empty(),
    }
}

pub open spec fn arm_text(arm: ArmView) -> Seq<char>
    decreases arm, 0nat,
{
    match arm {
        ArmView::Receive { receive_vars, channel, body } => "case "@ + match receive_vars {
            Some(v) => v + " := "@,
            None => Seq::empty(),
        } + "<-"@ + expr_text(channel) + ":\n"@ + lines_text(body),
        ArmView::Send { channel, value, body } => "case "@ + expr_text(channel) + " <- "@
            + expr_text(value) + ":\n"@ + lines_text(body),
        ArmView::Default { body } => "default:\n"@ + lines_text(body),
    }
}

pub open spec fn arms_text(arms: Seq<ArmView>) -> Seq<char>
    decreases arms, 0nat,
{
    if arms.len() == 0 {
        Seq::empty()
    } else {
        arms_text(arms.drop_last()) + arm_text(arms.last())
    }
}

pub open spec fn case_text(case: CaseView) -> Seq<char>
    decreases case, 0nat,
{
    "case "@ + exprs_text(case.labels) + ":\n"@ + lines_text(case.body)
}

pub open spec fn cases_text(cases: Seq<CaseView>) -> Seq<char>
    decreases cases, 0nat,
{
    if cases.len() == 0 {
        Seq::empty()
    } else {
        cases_text(cases.drop_last()) + case_text(cases.last())
    }
}

pub open spec fn switch_subject_text(kind: SwitchKindView) -> Seq<char>
    decreases kind, 0nat,
{
    match kind {
        SwitchKindView::Conditional => Seq::empty(),
        SwitchKindView::Value { subject } => " "@ + header_text(subject),
        SwitchKindView::Type { subject, binding } => " "@ + match binding {
            Some(b) => b + " := "@,
            None => Seq::empty(),
        } + header_text(subject) + ".(type)"@,
    }
}

pub open spec fn definition_text(d: DefView) -> Seq<char>
    decreases d, 0nat,
{
    names_text(d.names) + " := "@ + expr_text(d.value)
}

/// An `if` statement from its setup to its last line, newline included.
pub open spec fn if_text(plan: IfView) -> Seq<char>
    decreases plan, 0nat,
{
    lines_text(plan.condition_setup) + "if "@ + initializer_text(plan.initializer) + header_text(
        plan.condition,
    ) + " {\n"@ + lines_text(plan.then_body) + "}"@ + else_text(plan.else_arm)
}

/// `names := value; ` in front of an `if` condition, or nothing.
pub open spec fn initializer_text(initializer: Option<DefView>) -> Seq<char>
    decreases initializer, 0nat,
{
    match initializer {
        Some(d) => definition_text(d) + "; "@,
        None => Seq::empty(),
    }
}

/// What follows the closing brace of an `if` branch.
pub open spec fn else_text(arm: ElseView) -> Seq<char>
    decreases arm, 0nat,
{
    match arm {
        ElseView::NoElse => "\n"@,
        ElseView::ElseIf(inner) => if inner.condition_setup.len() == 0 {
            " else "@ + if_text(*inner)
        } else {
            " else {\n"@ + if_text(*inner) + "}\n"@
        },
        ElseView::Else { body, inline } => if inline {
            "\n"@ + lines_text(body)
        } else {
            " else {\n"@ + lines_text(body) + "}\n"@
        },
    }
}

pub open spec fn value_text(v: ValueView) -> Seq<char>
    decreases v, 0nat,
{
    lines_text(v.setup) + expr_text(v.expression)
}

pub open spec fn loop_text(plan: LoopView) -> Seq<char>
    decreases plan, 0nat,
{
    lines_text(plan.prologue) + label_text(plan.kind) + "for"@ + loop_header_text(plan.header)
        + " {\n"@ + lines_text(plan.body) + "}\n"@
}

pub open spec fn assign_text(form: AssignView) -> Seq<char>
    decreases form, 1nat,
{
    match form {
        AssignView::Simple { target_capture, target, value } => lines_text(target_capture)
            + lines_text(value.setup) + expr_text(target) + " = "@ + expr_text(value.expression)
            + "\n"@,
        AssignView::Compound { target_capture, .. } => lines_text(target_capture) + compound_text(
            form,
        ),
    }
}

/// A compound assignment after its target's setup.
pub open spec fn compound_text(form: AssignView) -> Seq<char>
    decreases form, 0nat,
{
    match form {
        AssignView::Compound { target, kind, .. } => match kind {
            CompoundView::Increment => expr_text(target) + "++\n"@,
            CompoundView::Decrement => expr_text(target) + "--\n"@,
            CompoundView::OpAssign { op_text, rhs, pinned_left } => lines_text(rhs.setup) + match pinned_left {
                Some(left) => expr_text(target) + " = "@ + expr_text(left) + " "@ + op_text + " "@
                    + expr_text(rhs.expression) + "\n"@,
                None => expr_text(target) + " "@ + op_text + "= "@ + expr_text(rhs.expression)
                    + "\n"@,
            },
        },
        _ => Seq::empty(),
    }
}

pub open spec fn select_text(plan: SelectView) -> Seq<char>
    decreases plan, 0nat,
{
    lines_text(plan.setup) + (if plan.retry_loop {
        "for {\n"@
    } else {
        Seq::empty()
    }) + "select {\n"@ + arms_text(plan.arms) + "}\n"@ + (if plan.retry_loop {
        "break\n}\n"@
    } else {
        Seq::empty()
    }) + lines_text(plan.postlude)
}

pub open spec fn default_text(default: Option<Seq<StmtView>>) -> Seq<char>
    decreases default, 0nat,
{
    match default {
        Some(body) => "default:\n"@ + lines_text(body),
        None => Seq::empty(),
    }
}

pub open spec fn switch_text(plan: SwitchView) -> Seq<char>
    decreases plan, 0nat,
{
    "switch"@ + switch_subject_text(plan.kind) + " {\n"@ + cases_text(plan.cases) + default_text(
        plan.default,
    ) + "}\n"@ + lines_text(plan.postlude)
}

/// `{ .. }` around a body; a bare body; `for { .. }` around the body of a
/// `while let`.
pub open spec fn body_text(s: StmtView) -> Seq<char>
    decreases s, 0nat,
{
    match s {
        StmtView::Block(body) => "{\n"@ + lines_text(body) + "}\n"@,
        StmtView::Body(body) => lines_text(body),
        StmtView::WhileLet(body) => "for {\n"@ + lines_text(body) + "}\n"@,
        _ => Seq::empty(),
    }
}

/// `break` or `continue`, with the label where the jump names one.
pub open spec fn jump_text(s: StmtView) -> Seq<char> {
    match s {
        StmtView::Break(t) => "break"@ + transfer_text(t) + "\n"@,
        StmtView::Continue(t) => "continue"@ + transfer_text(t) + "\n"@,
        _ => Seq::empty(),
    }
}

/// `const name type = value`, or `var` for a value Go cannot hold in a constant.
pub open spec fn const_text(s: StmtView) -> Seq<char>
    decreases s, 0nat,
{
    match s {
        StmtView::Const(c) => (if c.is_const {
            "const "@
        } else {
            "var "@
        }) + c.name + (if c.ty_str.len() > 0 {
            " "@ + c.ty_str
        } else {
            Seq::empty()
        }) + " = "@ + expr_text(c.value) + "\n"@,
        _ => Seq::empty(),
    }
}

pub open spec fn return_text(s: StmtView) -> Seq<char>
    decreases s, 0nat,
{
    match s {
        StmtView::Return(values) => "return"@ + (if values.len() > 0 {
            " "@ + exprs_text(values)
        } else {
            Seq::empty()
        }) + "\n"@,
        _ => Seq::empty(),
    }
}

/// The simple statements that write expressions: `go`/`defer`, `:=`,
/// multiple assignment, `var`, `_ =` and a bare expression.
pub open spec fn simple_text(s: StmtView) -> Seq<char>
    decreases s, 0nat,
{
    match s {
        StmtView::Async { keyword, call } => keyword + " "@ + expr_text(call) + "\n"@,
        StmtView::Define(d) => definition_text(d) + "\n"@,
        StmtView::AssignMany { targets, value } => exprs_text(targets) + " = "@ + expr_text(value)
            + "\n"@,
        StmtView::VarDecl { name, go_type, value } => "var "@ + name + " "@ + go_type + (match value {
            Some(v) => " = "@ + expr_text(v),
            None => Seq::empty(),
        }) + "\n"@,
        StmtView::Discard(e) => "_ = "@ + expr_text(e) + "\n"@,
        StmtView::ExpressionStatement { expression, .. } => if expr_text(expression).len() == 0 {
            Seq::empty()
        } else {
            expr_text(expression) + "\n"@
        },
        _ => Seq::empty(),
    }
}

/// A statement behind its directive line, such as a `//go:` comment.
pub open spec fn directed_text(s: StmtView) -> Seq<char>
    decreases s, 0nat,
{
    match s {
        StmtView::Directed { directive, inner } => if directive.len() == 0 {
            inner.rendered()
        } else {
            directive + "\n"@ + inner.rendered()
        },
        _ => Seq::empty(),
    }
}

impl StmtView {
    /// The Go lines of the statement, each ending in a newline.
    pub open spec fn rendered(self) -> Seq<char>
        decreases self, 1nat,
    {
        match self {
            StmtView::If(plan) => if_text(plan),
            StmtView::Loop(plan) => loop_text(plan),
            StmtView::Block(_) | StmtView::Body(_) | StmtView::WhileLet(_) => body_text(self),
            StmtView::Break(_) | StmtView::Continue(_) => jump_text(self),
            StmtView::Const(_) => const_text(self),
            StmtView::Return(_) => return_text(self),
            StmtView::Assign(form) => assign_text(form),
            StmtView::Select(plan) => select_text(plan),
            StmtView::Switch(plan) => switch_text(plan),
            StmtView::Async { .. }
            | StmtView::Define(_)
            | StmtView::AssignMany { .. }
            | StmtView::VarDecl { .. }
            | StmtView::Discard(_)
            | StmtView::ExpressionStatement { .. } => simple_text(self),
            StmtView::Directed { .. } => directed_text(self),
            StmtView::UnreachablePanic => "panic(\"unreachable\")\n"@,
        }
    }
}

/// Go's precedence table: `* / % << >> & &^` bind tightest (5), then
/// `+ - | ^` (4), the comparisons `== != < <= > >=` (3), `&&` (2) and `||`
/// (1); any other operator has no level (0).
pub proof fn law_go_operator_precedence(operator: Seq<char>)
    ensures
        binary_level("*"@) == 5,
        binary_level("/"@) == 5,
        binary_level("%"@) == 5,
        binary_level("<<"@) == 5,
        binary_level(">>"@) == 5,
        binary_level("&"@) == 5,
        binary_level("&^"@) == 5,
        binary_level("+"@) == 4,
        binary_level("-"@) == 4,
        binary_level("|"@) == 4,
        binary_level("^"@) == 4,
        binary_level("=="@) == 3,
        binary_level("!="@) == 3,
        binary_level("<"@) == 3,
        binary_level("<="@) == 3,
        binary_level(">"@) == 3,
        binary_level(">="@) == 3,
        binary_level("&&"@) == 2,
        binary_level("||"@) == 1,
        binary_level(operator) > 0 ==> (operator == "*"@ || operator == "/"@ || operator == "%"@ || operator == "<<"@ || operator == ">>"@ || operator == "&"@ || operator == "&^"@ || operator == "+"@ || operator == "-"@ || operator == "|"@ || operator == "^"@ || operator == "=="@ || operator == "!="@ || operator == "<"@ || operator == "<="@ || operator == ">"@ || operator == ">="@ || operator == "&&"@ || operator == "||"@),
{
    reveal_strlit("*");
    reveal_strlit("/");
    reveal_strlit("%");
    reveal_strlit("<<");
    reveal_strlit(">>");
    reveal_strlit("&");
    reveal_strlit("&^");
    reveal_strlit("+");
    reveal_strlit("-");
    reveal_strlit("|");
    reveal_strlit("^");
    reveal_strlit("==");
    reveal_strlit("!=");
    reveal_strlit("<");
    reveal_strlit("<=");
    reveal_strlit(">");
    reveal_strlit(">=");
    reveal_strlit("&&");
    reveal_strlit("||");
    assert("*"@.len() == 1 && "*"@[0] == '*');
    assert("/"@.len() == 1 && "/"@[0] == '/');
    assert("%"@.len() == 1 && "%"@[0] == '%');
    assert("<<"@.len() == 2 && "<<"@[0] == '<' && "<<"@[1] == '<');
    assert(">>"@.len() == 2 && ">>"@[0] == '>' && ">>"@[1] == '>');
    assert("&"@.len() == 1 && "&"@[0] == '&');
    assert("&^"@.len() == 2 && "&^"@[0] == '&' && "&^"@[1] == '^');
    assert("+"@.len() == 1 && "+"@[0] == '+');
    assert("-"@.len() == 1 && "-"@[0] == '-');
    assert("|"@.len() == 1 && "|"@[0] == '|');
    assert("^"@.len() == 1 && "^"@[0] == '^');
    assert("=="@.len() == 2 && "=="@[0] == '=' && "=="@[1] == '=');
    assert("!="@.len() == 2 && "!="@[0] == '!' && "!="@[1] == '=');
    assert("<"@.len() == 1 && "<"@[0] == '<');
    assert("<="@.len() == 2 && "<="@[0] == '<' && "<="@[1] == '=');
    assert(">"@.len() == 1 && ">"@[0] == '>');
    assert(">="@.len() == 2 && ">="@[0] == '>' && ">="@[1] == '=');
    assert("&&"@.len() == 2 && "&&"@[0] == '&' && "&&"@[1] == '&');
    assert("||"@.len() == 2 && "||"@[0] == '|' && "||"@[1] == '|');
}

/// Printing a binary operation puts parentheses around an operand exactly
/// where Go would otherwise group it differently: around a left operand
/// that binds more loosely than the operator, and around a right operand
/// that binds no tighter.
pub proof fn law_binary_operands_parenthesized_as_go_groups(
    operator: Seq<char>,
    inner: Seq<char>,
    a: NodeView,
    b: NodeView,
    slot: Slot,
)
    ensures
        ({
            let child = NodeView::Binary { operator: inner, left: Box::new(a), right: Box::new(b) };
            let left_slot = slot_with(slot, SlotKind::Left(binary_level(operator)));
            let right_slot = slot_with(slot, SlotKind::Right(binary_level(operator)));
            &&& child_text(child, left_slot) == if binary_level(inner) < binary_level(operator) {
                "("@ + child.text(free_slot()) + ")"@
            } else {
                child.text(left_slot)
            }
            &&& child_text(child, right_slot) == if binary_level(inner) <= binary_level(operator) {
                "("@ + child.text(free_slot()) + ")"@
            } else {
                child.text(right_slot)
            }
        }),
{
}

/// Operands are parenthesized where Go would otherwise read them
/// differently: a binary operation under a prefix operator, before a
/// selector, index or call; a negation under another minus (`-(-x)`, not
/// `--x`) and before a selector; a literal before a selector. A plain name
/// is never parenthesized.
pub proof fn law_operands_parenthesized_where_go_would_regroup(
    inner: Seq<char>,
    a: NodeView,
    b: NodeView,
    name: Seq<char>,
    literal: Seq<char>,
    prefix: char,
    slot: Slot,
)
    ensures
        ({
            let bin = NodeView::Binary { operator: inner, left: Box::new(a), right: Box::new(b) };
            let neg = NodeView::Unary { operator: "-"@, operand: Box::new(a) };
            let lit = NodeView::Literal(literal);
            &&& child_text(bin, slot_with(slot, SlotKind::Prefix(prefix))) == "("@ + bin.text(free_slot()) + ")"@
            &&& child_text(bin, slot_with(slot, SlotKind::Postfix)) == "("@ + bin.text(free_slot()) + ")"@
            &&& child_text(bin, slot_with(slot, SlotKind::Callee)) == "("@ + bin.text(free_slot()) + ")"@
            &&& child_text(neg, slot_with(slot, SlotKind::Prefix('-'))) == "("@ + neg.text(free_slot()) + ")"@
            &&& child_text(neg, slot_with(slot, SlotKind::Postfix)) == "("@ + neg.text(free_slot()) + ")"@
            &&& child_text(lit, slot_with(slot, SlotKind::Postfix)) == "("@ + lit.text(free_slot()) + ")"@
            &&& child_text(NodeView::Identifier(name), slot) == name
        }),
{
    reveal_strlit("-");
}

} // verus!
