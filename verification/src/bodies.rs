//! Lowered body IR: the typed vocabulary the lowering produces and the
//! renderer consumes.

use crate::go_expression::GoExpressionNode;
use crate::model::{
    texts, stmt_list_view, arm_list_view, ArmView, AssignView, DefView, ElseView, IfView, NodeView, SelectView,
    StmtView, ValueView,
};
use crate::values::{EvaluationEffect, EvaluationFacts, GoExpression, Stability, ValuePlan};
use vstd::string::StrSliceExecFns;
use crate::text::same_text;
use vstd::prelude::*;

verus! {

#[derive(Debug, PartialEq, Eq)]
pub struct LoweredBlock {
    pub statements: Vec<LoweredStatement>,
}

#[derive(Clone, Copy, Debug, PartialEq, Eq, Structural)]
pub struct LoopId(pub u32);

#[derive(Debug, Clone, PartialEq, Eq)]
pub enum LoopTransfer {
    Unlabeled,
    Source(LoopId),
    Labeled(String),
}

#[derive(Debug, PartialEq, Eq)]
pub struct Definition {
    pub names: Vec<String>,
    pub value: GoExpression,
}

#[derive(Debug, PartialEq, Eq)]
pub enum LoweredStatement {
    If(IfPlan),
    Loop(LoopPlan),
    Block(LoweredBlock),
    /// A nested block rendered without adding braces.
    Body(LoweredBlock),
    Break(LoopTransfer),
    Continue(LoopTransfer),
    Const(ConstPlan),
    Return(Vec<GoExpression>),
    Assign(AssignForm),
    Async { keyword: String, call: GoExpression },
    Select(SelectStatementPlan),
    Switch(SwitchStatementPlan),
    WhileLet(LoweredBlock),
    Define(Definition),
    AssignMany { targets: Vec<GoExpression>, value: GoExpression },
    /// `var name go_type` (with `= value` when `value` is set).
    VarDecl { name: String, go_type: String, value: Option<GoExpression> },
    Discard(GoExpression),
    ExpressionStatement { expression: GoExpression, diverges: bool },
    /// A statement preceded by a sourcemap `//line` directive.
    Directed { directive: String, inner: Box<LoweredStatement> },
    /// `panic("unreachable")` tail after a non-exhaustive branch in return
    /// position: a structured diverging leaf.
    UnreachablePanic,
}

/// A source `const` (or `var` when the value is not Go-const-eligible).
#[derive(Debug, PartialEq, Eq)]
pub struct ConstPlan {
    pub is_const: bool,
    pub name: String,
    pub ty_str: String,
    pub value: GoExpression,
}

/// An assignment statement, structured by shape.
#[derive(Debug, PartialEq, Eq)]
pub enum AssignForm {
    /// `target++`, `target--`, or `target op= rhs`.
    Compound { target_capture: Vec<LoweredStatement>, target: GoExpression, kind: CompoundKind },
    /// `target = value`.
    Simple { target_capture: Vec<LoweredStatement>, target: GoExpression, value: ValuePlan },
}

#[derive(Debug, PartialEq, Eq)]
pub enum CompoundKind {
    Increment,
    Decrement,
    /// `target op= rhs`. An effectful right side forces the target's prior
    /// value into `pinned_left`, rendered as `target = pinned_left op rhs`.
    OpAssign { op_text: String, rhs: Box<ValuePlan>, pinned_left: Option<GoExpression> },
}

/// A `switch` statement (value or type switch).
#[derive(Debug, PartialEq, Eq)]
pub struct SwitchStatementPlan {
    pub kind: SwitchKind,
    pub cases: Vec<SwitchCasePlan>,
    pub default: Option<LoweredBlock>,
    /// Statements after the switch, such as an unreachable panic.
    pub postlude: Vec<LoweredStatement>,
}

#[derive(Debug, PartialEq, Eq)]
pub enum SwitchKind {
    Conditional,
    /// `switch <subject> {`
    Value { subject: GoExpression },
    /// `switch <binding> := <subject>.(type) {` when `binding` is set,
    /// otherwise `switch <subject>.(type) {`.
    Type { subject: GoExpression, binding: Option<String> },
}

/// A single `case <labels>:` plus its body.
#[derive(Debug, PartialEq, Eq)]
pub struct SwitchCasePlan {
    pub labels: Vec<GoExpression>,
    pub body: LoweredBlock,
}

/// A `select` statement: optional retry-loop wrapper around the `select`, an
/// ordered set of arms, plus hoisted setup and a trailing postlude.
#[derive(Debug, PartialEq, Eq)]
pub struct SelectStatementPlan {
    /// Side-effecting setup hoisted before the `select`.
    pub setup: Vec<LoweredStatement>,
    /// When set, the `select` is wrapped in `for { ... break }` for retry.
    pub retry_loop: bool,
    pub arms: Vec<SelectArmPlan>,
    /// Statements after the `select`/retry loop, such as an unreachable panic.
    pub postlude: Vec<LoweredStatement>,
}

/// A single `select` arm: a `case`/`default:` header plus its body block.
#[derive(Debug, PartialEq, Eq)]
pub enum SelectArmPlan {
    /// `case <receive_vars> := <-<channel>:`, or `case <-<channel>:` when
    /// `receive_vars` is `None`.
    Receive { receive_vars: Option<String>, channel: GoExpression, body: LoweredBlock },
    /// `case <channel> <- <value>:`
    Send { channel: GoExpression, value: GoExpression, body: LoweredBlock },
    /// `default:`
    Default { body: LoweredBlock },
}

/// A statement-position loop. `prologue` is pre-loop setup (a for-loop's
/// iterable capture).
#[derive(Debug, PartialEq, Eq)]
pub struct LoopPlan {
    pub prologue: Vec<LoweredStatement>,
    pub kind: LoopKind,
    pub header: LoopHeader,
    pub body: LoweredBlock,
}

#[derive(Debug, PartialEq, Eq)]
pub enum LoopHeader {
    Infinite,
    While(GoExpression),
    Range { key: Option<String>, value: Option<String>, iterable: GoExpression },
    Counted { variable: String, start: GoExpression, condition: Option<GoExpression> },
}

#[derive(Debug, Clone, PartialEq, Eq)]
pub enum LoopKind {
    Source { label: Option<String> },
    Generated { label: Option<String> },
}

#[derive(Debug, PartialEq, Eq)]
pub struct IfPlan {
    /// Side-effecting setup hoisted before the `if` condition.
    pub condition_setup: Vec<LoweredStatement>,
    pub initializer: Option<Definition>,
    pub condition: GoExpression,
    pub then_body: LoweredBlock,
    pub else_arm: ElseArm,
}

#[derive(Debug, PartialEq, Eq)]
pub enum ElseArm {
    /// No `else` branch.
    NoElse,
    ElseIf(Box<IfPlan>),
    /// `inline` is set when the preceding branch diverges so Go would reject
    /// a dead `else`: the body emits unwrapped after `}` instead of `else {}`.
    Else { body: LoweredBlock, inline: bool },
}

} // verus!

verus! {

// ---------------------------------------------------------------------------
// What a statement shows and where control goes
// ---------------------------------------------------------------------------

pub open spec fn node_is_empty(node: NodeView) -> bool {
    match node {
        NodeView::Empty => true,
        NodeView::Verbatim(source) => source.len() == 0,
        _ => false,
    }
}

/// Whether the statement writes anything.
pub open spec fn stmt_emits_output(s: StmtView) -> bool
    decreases s, 1nat,
{
    match s {
        StmtView::Body(body) => !block_renders_empty(body),
        StmtView::WhileLet(body) => !block_renders_empty(body),
        StmtView::ExpressionStatement { expression, .. } => !node_is_empty(expression.node),
        StmtView::Directed { directive, inner } => directive.len() > 0 || stmt_emits_output(*inner),
        _ => true,
    }
}

/// Whether none of the statements writes anything.
pub open spec fn block_renders_empty(body: Seq<StmtView>) -> bool
    decreases body, 0nat,
{
    if body.len() == 0 {
        true
    } else {
        block_renders_empty(body.drop_last()) && !stmt_emits_output(body.last())
    }
}

/// Whether control never runs past the statement: its last line is `break`,
/// `continue`, `return` or a panic.
pub open spec fn stmt_diverges(s: StmtView) -> bool
    decreases s, 1nat,
{
    match s {
        StmtView::If(plan) => if_diverges(plan),
        StmtView::Body(body) => block_diverges(body),
        StmtView::WhileLet(body) => block_diverges(body),
        StmtView::Break(_) | StmtView::Continue(_) | StmtView::Return(_) | StmtView::UnreachablePanic => true,
        StmtView::Select(plan) => select_diverges(plan),
        StmtView::Switch(plan) => postlude_diverges(plan.postlude),
        StmtView::ExpressionStatement { diverges, .. } => diverges,
        StmtView::Directed { inner, .. } => stmt_diverges(*inner),
        _ => false,
    }
}

pub open spec fn block_diverges(body: Seq<StmtView>) -> bool
    decreases body, 0nat,
{
    body.len() > 0 && stmt_diverges(body.last())
}

pub open spec fn postlude_diverges(postlude: Seq<StmtView>) -> bool
    decreases postlude, 0nat,
{
    postlude.len() > 0 && stmt_diverges(postlude.last())
}

/// Both branches diverge; an `else if` counts only without setup of its own.
pub open spec fn if_diverges(plan: IfView) -> bool
    decreases plan, 0nat,
{
    block_diverges(plan.then_body) && match plan.else_arm {
        ElseView::NoElse => false,
        ElseView::ElseIf(inner) => inner.condition_setup.len() == 0 && if_diverges(*inner),
        ElseView::Else { body, .. } => block_diverges(body),
    }
}

pub open spec fn arm_body(arm: ArmView) -> Seq<StmtView> {
    match arm {
        ArmView::Receive { body, .. } => body,
        ArmView::Send { body, .. } => body,
        ArmView::Default { body } => body,
    }
}

pub open spec fn arms_diverge(arms: Seq<ArmView>) -> bool
    decreases arms, 0nat,
{
    if arms.len() == 0 {
        true
    } else {
        arms_diverge(arms.drop_last()) && block_diverges(arm_body(arms.last()))
    }
}

pub open spec fn select_diverges(plan: SelectView) -> bool
    decreases plan, 0nat,
{
    postlude_diverges(plan.postlude) || (plan.arms.len() > 0 && arms_diverge(plan.arms))
}

/// Whether Go sees no fall-through past the statement; a `while let` loop
/// always can end.
pub open spec fn stmt_blocks_fallthrough(s: StmtView) -> bool
    decreases s,
{
    match s {
        StmtView::Directed { inner, .. } => stmt_blocks_fallthrough(*inner),
        StmtView::WhileLet(_) => false,
        _ => stmt_diverges(s),
    }
}

/// The one name the statement binds, seeing through a directive.
pub open spec fn stmt_bound_name(s: StmtView) -> Option<Seq<char>>
    decreases s,
{
    match s {
        StmtView::Directed { inner, .. } => stmt_bound_name(*inner),
        StmtView::Define(d) => if d.names.len() == 1 {
            Some(d.names[0])
        } else {
            None
        },
        StmtView::VarDecl { name, value: Some(_), .. } => Some(name),
        _ => None,
    }
}

/// The statement with the name it binds replaced by `name`.
pub open spec fn stmt_rebound(s: StmtView, name: Seq<char>) -> StmtView
    decreases s,
{
    match s {
        StmtView::Directed { directive, inner } => StmtView::Directed {
            directive,
            inner: Box::new(stmt_rebound(*inner, name)),
        },
        StmtView::Define(d) => if d.names.len() == 1 {
            StmtView::Define(DefView { names: seq![name], value: d.value })
        } else {
            s
        },
        StmtView::VarDecl { go_type, value: Some(v), .. } => StmtView::VarDecl {
            name,
            go_type,
            value: Some(v),
        },
        _ => s,
    }
}

} // verus!

verus! {

// ---------------------------------------------------------------------------
// Building statements
// ---------------------------------------------------------------------------

/// `name := value`.
pub fn define(name: String, value: GoExpression) -> (s: LoweredStatement)
    ensures
        s@ == StmtView::Define(DefView { names: seq![name@], value: value@ }),
{
    LoweredStatement::Define(Definition::single(name, value))
}

/// `a, b := value`.
pub fn define_many(names: Vec<String>, value: GoExpression) -> (s: LoweredStatement)
    ensures
        s@ == StmtView::Define(DefView { names: texts(names@), value: value@ }),
{
    let d = Definition { names, value };
    assert(d@ == DefView { names: texts(d.names@), value: d.value@ });
    LoweredStatement::Define(d)
}

/// `_ = value`.
pub fn discard(value: GoExpression) -> (s: LoweredStatement)
    ensures
        s@ == StmtView::Discard(value@),
{
    LoweredStatement::Discard(value)
}

/// The expression as a statement of its own.
pub fn expression_statement(expression: GoExpression) -> (s: LoweredStatement)
    ensures
        s@ == (StmtView::ExpressionStatement { expression: expression@, diverges: false }),
{
    LoweredStatement::ExpressionStatement { expression, diverges: false }
}

/// `target = value`, with nothing to set up on either side.
pub fn assign(target: GoExpression, value: GoExpression) -> (s: LoweredStatement)
    ensures
        s@ == StmtView::Assign(
            AssignView::Simple {
                target_capture: Seq::empty(),
                target: target@,
                value: ValueView {
                    setup: Seq::empty(),
                    expression: value@,
                    evaluation: EvaluationFacts {
                        stability: Stability::Observable,
                        effect: EvaluationEffect::Pure,
                    },
                },
            },
        ),
{
    let plan = ValuePlan::computed(Vec::new(), value, EvaluationEffect::Pure);
    assert(plan@.setup =~= Seq::<StmtView>::empty());
    let form = AssignForm::Simple { target_capture: Vec::new(), target, value: plan };
    assert(form.view_assign() == AssignView::Simple {
        target_capture: stmt_list_view(&form->Simple_target_capture),
        target: form->Simple_target@,
        value: form->Simple_value@,
    });
    assert(stmt_list_view(&form->Simple_target_capture) =~= Seq::<StmtView>::empty());
    LoweredStatement::Assign(form)
}

/// The statement behind a directive line, or the statement alone when there
/// is no directive.
pub fn directed(directive: String, stmt: LoweredStatement) -> (s: LoweredStatement)
    ensures
        s@ == (if directive@.len() == 0 {
            stmt@
        } else {
            StmtView::Directed { directive: directive@, inner: Box::new(stmt@) }
        }),
{
    if directive.as_str().unicode_len() == 0 {
        stmt
    } else {
        LoweredStatement::Directed { directive, inner: Box::new(stmt) }
    }
}

/// The statements with the directive in front of the first one; an empty
/// list gets an empty body to carry it.
pub fn directed_first(directive: String, statements: Vec<LoweredStatement>) -> (r: Vec<
    LoweredStatement,
>)
    ensures
        stmt_list_view(&r) == (if directive@.len() == 0 {
            stmt_list_view(&statements)
        } else if statements@.len() == 0 {
            seq![
                StmtView::Directed {
                    directive: directive@,
                    inner: Box::new(StmtView::Body(Seq::empty())),
                },
            ]
        } else {
            stmt_list_view(&statements).update(
                0,
                StmtView::Directed {
                    directive: directive@,
                    inner: Box::new(stmt_list_view(&statements)[0]),
                },
            )
        }),
{
    if directive.as_str().unicode_len() == 0 {
        return statements;
    }
    let ghost before = stmt_list_view(&statements);
    let mut statements = statements;
    if statements.len() == 0 {
        let empty = LoweredBlock { statements: Vec::new() };
        assert(empty@ =~= Seq::<StmtView>::empty());
        let body = LoweredStatement::Body(empty);
        assert(body@ == StmtView::Body(Seq::empty()));
        let first = directed(directive, body);
        let r = vec![first];
        proof {
            assert(stmt_list_view(&r) =~= seq![first@]);
        }
        r
    } else {
        let first = statements.remove(0);
        statements.insert(0, directed(directive, first));
        proof {
            assert(stmt_list_view(&statements) =~= before.update(
                0,
                StmtView::Directed { directive: directive@, inner: Box::new(before[0]) },
            ));
        }
        statements
    }
}

impl Definition {
    /// `name := value`.
    pub fn single(name: String, value: GoExpression) -> (d: Self)
        ensures
            d@ == (DefView { names: seq![name@], value: value@ }),
    {
        let d = Definition { names: vec![name], value };
        assert(d@.names =~= seq![name@]);
        d
    }
}

impl LoopKind {
    pub fn label(&self) -> (label: Option<&str>)
        ensures
            match self {
                LoopKind::Source { label: l } | LoopKind::Generated { label: l } => match l {
                    Some(t) => label is Some && label->0@ == t@,
                    None => label is None,
                },
            },
    {
        match self {
            LoopKind::Source { label } | LoopKind::Generated { label } => match label {
                Some(t) => Some(t.as_str()),
                None => None,
            },
        }
    }
}

impl IfPlan {
    /// `if condition { then } else ..` with no setup and no initializer.
    pub fn plain(condition: GoExpression, then_body: LoweredBlock, else_arm: ElseArm) -> (plan: Self)
        ensures
            plan@ == (IfView {
                condition_setup: Seq::empty(),
                initializer: None,
                condition: condition@,
                then_body: then_body@,
                else_arm: else_arm.view_else(),
            }),
    {
        let plan = IfPlan {
            condition_setup: Vec::new(),
            initializer: None,
            condition,
            then_body,
            else_arm,
        };
        assert(plan@.condition_setup =~= Seq::<StmtView>::empty());
        plan
    }
}

impl ElseArm {
    /// An `else` branch, or none when its body writes nothing.
    pub fn from_body(body: LoweredBlock, inline: bool) -> (arm: Self)
        ensures
            arm.view_else() == (if block_renders_empty(body@) {
                ElseView::NoElse
            } else {
                ElseView::Else { body: body@, inline }
            }),
    {
        if body.renders_empty() {
            return ElseArm::NoElse;
        }
        ElseArm::Else { body, inline }
    }
}

/// The body of an arm.
pub open spec fn arm_block(arm: SelectArmPlan) -> LoweredBlock {
    match arm {
        SelectArmPlan::Receive { body, .. } => body,
        SelectArmPlan::Send { body, .. } => body,
        SelectArmPlan::Default { body } => body,
    }
}

/// The arm with its body replaced.
pub open spec fn with_arm_block(arm: SelectArmPlan, body: LoweredBlock) -> SelectArmPlan {
    match arm {
        SelectArmPlan::Receive { receive_vars, channel, .. } => SelectArmPlan::Receive {
            receive_vars,
            channel,
            body,
        },
        SelectArmPlan::Send { channel, value, .. } => SelectArmPlan::Send { channel, value, body },
        SelectArmPlan::Default { .. } => SelectArmPlan::Default { body },
    }
}

impl SelectArmPlan {
    pub fn body_mut(&mut self) -> (body: &mut LoweredBlock)
        ensures
            *body == arm_block(*old(self)),
            *final(self) == with_arm_block(*old(self), *final(body)),
    {
        match self {
            SelectArmPlan::Receive { body, .. } => body,
            SelectArmPlan::Send { body, .. } => body,
            SelectArmPlan::Default { body } => body,
        }
    }

    fn body_diverges(&self) -> (r: bool)
        ensures
            r == block_diverges(arm_body(self.view_arm())),
        decreases self, 2nat,
    {
        match self {
            SelectArmPlan::Receive { body, .. } => body.ends_with_diverge(),
            SelectArmPlan::Send { body, .. } => body.ends_with_diverge(),
            SelectArmPlan::Default { body } => body.ends_with_diverge(),
        }
    }

    pub fn body(&self) -> (body: &LoweredBlock)
        ensures
            body@ == arm_body(self.view_arm()),
    {
        match self {
            SelectArmPlan::Receive { body, .. } => body,
            SelectArmPlan::Send { body, .. } => body,
            SelectArmPlan::Default { body } => body,
        }
    }
}

} // verus!

verus! {

impl LoweredBlock {
    /// Whether the block's last line is `break`, `continue`, `return` or a
    /// panic.
    pub fn ends_with_diverge(&self) -> (r: bool)
        ensures
            r == block_diverges(self@),
        decreases self, 1nat,
    {
        let n = self.statements.len();
        if n == 0 {
            false
        } else {
            proof {
                assert(decreases_to!(*self => self.statements));
                assert(decreases_to!(self.statements => self.statements[n - 1]));
            }
            self.statements[n - 1].ends_with_diverge()
        }
    }

    /// Whether the block has no statements.
    pub fn is_empty(&self) -> (r: bool)
        ensures
            r == (self@.len() == 0),
    {
        self.statements.len() == 0
    }

    /// Whether none of the block's statements writes anything.
    pub fn renders_empty(&self) -> (r: bool)
        ensures
            r == block_renders_empty(self@),
        decreases self, 1nat,
    {
        proof {
            assert(decreases_to!(*self => self.statements));
        }
        statements_render_empty(&self.statements)
    }
}

fn statements_render_empty(statements: &Vec<LoweredStatement>) -> (r: bool)
    ensures
        r == block_renders_empty(stmt_list_view(statements)),
    decreases statements, 0nat,
{
    let ghost sv = stmt_list_view(statements);
    let mut i: usize = 0;
    while i < statements.len()
        invariant
            sv == stmt_list_view(statements),
            i <= statements@.len(),
            block_renders_empty(sv.take(i as int)),
        decreases statements@.len() - i,
    {
        proof {
            assert(decreases_to!(*statements => statements[i as int]));
            assert(sv.take(i + 1).drop_last() =~= sv.take(i as int));
        }
        if statements[i].emits_output() {
            proof {
                lemma_renders_empty_prefix(sv, i + 1);
            }
            return false;
        }
        i = i + 1;
    }
    proof {
        assert(sv.take(i as int) =~= sv);
    }
    true
}

/// A body that writes nothing has no prefix that writes something.
pub proof fn lemma_renders_empty_prefix(body: Seq<StmtView>, n: int)
    requires
        0 <= n <= body.len(),
        !block_renders_empty(body.take(n)),
    ensures
        !block_renders_empty(body),
    decreases body.len() - n,
{
    if n < body.len() {
        assert(body.take(n + 1).drop_last() =~= body.take(n));
        lemma_renders_empty_prefix(body, n + 1);
    } else {
        assert(body.take(n) =~= body);
    }
}

impl LoweredStatement {
    /// Whether the statement writes anything.
    pub fn emits_output(&self) -> (r: bool)
        ensures
            r == stmt_emits_output(self@),
        decreases self, 2nat,
    {
        match self {
            LoweredStatement::Body(body) => !body.renders_empty(),
            LoweredStatement::WhileLet(body) => !body.renders_empty(),
            LoweredStatement::ExpressionStatement { expression, .. } => !expression.is_empty(),
            LoweredStatement::Directed { directive, inner } => {
                directive.as_str().unicode_len() > 0 || inner.emits_output()
            },
            _ => true,
        }
    }

    /// Whether control never runs past the statement.
    pub fn ends_with_diverge(&self) -> (r: bool)
        ensures
            r == stmt_diverges(self@),
        decreases self, 2nat,
    {
        match self {
            LoweredStatement::If(plan) => plan.ends_with_diverge(),
            LoweredStatement::Body(body) => body.ends_with_diverge(),
            LoweredStatement::WhileLet(body) => body.ends_with_diverge(),
            LoweredStatement::Break(_)
            | LoweredStatement::Continue(_)
            | LoweredStatement::Return(_)
            | LoweredStatement::UnreachablePanic => true,
            LoweredStatement::Select(plan) => plan.ends_with_diverge(),
            LoweredStatement::Switch(plan) => plan.ends_with_diverge(),
            LoweredStatement::ExpressionStatement { diverges, .. } => *diverges,
            LoweredStatement::Directed { inner, .. } => inner.ends_with_diverge(),
            _ => false,
        }
    }

    /// Whether Go sees no fall-through past the statement.
    pub fn blocks_fallthrough(&self) -> (r: bool)
        ensures
            r == stmt_blocks_fallthrough(self@),
        decreases self,
    {
        match self {
            LoweredStatement::Directed { inner, .. } => inner.blocks_fallthrough(),
            LoweredStatement::WhileLet(_) => false,
            _ => self.ends_with_diverge(),
        }
    }

    /// The one Go name the statement binds, seeing through a directive.
    pub fn bound_name(&self) -> (name: Option<&str>)
        ensures
            match name {
                Some(n) => stmt_bound_name(self@) == Some(n@),
                None => stmt_bound_name(self@) is None,
            },
        decreases self,
    {
        match self {
            LoweredStatement::Directed { inner, .. } => {
                assert(stmt_bound_name(self@) == stmt_bound_name(inner@));
                inner.bound_name()
            },
            LoweredStatement::Define(d) => {
                assert(self@ == StmtView::Define(d@));
                if d.names.len() == 1 {
                    Some(d.names[0].as_str())
                } else {
                    None
                }
            },
            LoweredStatement::VarDecl { name, value: Some(_), .. } => Some(name.as_str()),
            _ => {
                assert(stmt_bound_name(self@) is None);
                None
            },
        }
    }

    pub fn binds_name(&self, go_name: &str) -> (r: bool)
        ensures
            r == (stmt_bound_name(self@) == Some(go_name@)),
    {
        match self.bound_name() {
            Some(name) => same_text(name, go_name),
            None => false,
        }
    }

    /// Renames what the statement binds; `false` when it binds nothing.
    pub fn rename_bound_name(&mut self, go_name: &str) -> (renamed: bool)
        ensures
            renamed == (stmt_bound_name(old(self)@) is Some),
            final(self)@ == stmt_rebound(old(self)@, go_name@),
        decreases *old(self),
    {
        let mut statement = LoweredStatement::UnreachablePanic;
        std::mem::swap(self, &mut statement);
        let (result, renamed) = statement.rebound(go_name);
        *self = result;
        renamed
    }

    fn rebound(self, go_name: &str) -> (r: (Self, bool))
        ensures
            r.1 == (stmt_bound_name(self@) is Some),
            r.0@ == stmt_rebound(self@, go_name@),
        decreases self,
    {
        let ghost before = self@;
        match self {
            LoweredStatement::Directed { directive, inner } => {
                let ghost inner_view = inner@;
                assert(before == StmtView::Directed { directive: directive@, inner: Box::new(inner_view) });
                let (inner, renamed) = (*inner).rebound(go_name);
                let r = LoweredStatement::Directed { directive, inner: Box::new(inner) };
                assert(r@ == StmtView::Directed { directive: directive@, inner: Box::new(inner@) });
                (r, renamed)
            },
            LoweredStatement::Define(d) => {
                let ghost dv = d@;
                assert(before == StmtView::Define(dv));
                if d.names.len() == 1 {
                    let rebound = Definition::single(go_name.to_owned(), d.value);
                    let r = LoweredStatement::Define(rebound);
                    assert(r@ == StmtView::Define(rebound@));
                    (r, true)
                } else {
                    (LoweredStatement::Define(d), false)
                }
            },
            LoweredStatement::VarDecl { name, go_type, value: Some(v) } => {
                let ghost vv = v@;
                assert(before == StmtView::VarDecl { name: name@, go_type: go_type@, value: Some(vv) });
                let r = LoweredStatement::VarDecl { name: go_name.to_owned(), go_type, value: Some(v) };
                assert(r@ == StmtView::VarDecl { name: go_name@, go_type: go_type@, value: Some(vv) });
                (r, true)
            },
            other => {
                assert(stmt_bound_name(other@) is None);
                (other, false)
            },
        }
    }
}

impl IfPlan {
    /// Whether both branches diverge.
    pub fn ends_with_diverge(&self) -> (r: bool)
        ensures
            r == if_diverges(self@),
        decreases self, 1nat,
    {
        if !self.then_body.ends_with_diverge() {
            return false;
        }
        proof {
            assert(decreases_to!(*self => self.else_arm));
        }
        match &self.else_arm {
            ElseArm::NoElse => false,
            ElseArm::ElseIf(inner) => inner.condition_setup.len() == 0 && inner.ends_with_diverge(),
            ElseArm::Else { body, .. } => body.ends_with_diverge(),
        }
    }
}

impl SwitchStatementPlan {
    pub fn ends_with_diverge(&self) -> (r: bool)
        ensures
            r == postlude_diverges(self.view_switch().postlude),
        decreases self, 1nat,
    {
        let n = self.postlude.len();
        if n == 0 {
            false
        } else {
            proof {
                assert(decreases_to!(*self => self.postlude));
                assert(decreases_to!(self.postlude => self.postlude[n - 1]));
            }
            self.postlude[n - 1].ends_with_diverge()
        }
    }
}

impl SelectStatementPlan {
    pub fn ends_with_diverge(&self) -> (r: bool)
        ensures
            r == select_diverges(self.view_select()),
        decreases self, 1nat,
    {
        let n = self.postlude.len();
        let postlude = if n == 0 {
            false
        } else {
            proof {
                assert(decreases_to!(*self => self.postlude));
                assert(decreases_to!(self.postlude => self.postlude[n - 1]));
            }
            self.postlude[n - 1].ends_with_diverge()
        };
        postlude || self.all_arms_diverge()
    }

    /// The select has arms and every arm's body diverges.
    #[verifier::loop_isolation(false)]
    pub fn all_arms_diverge(&self) -> (r: bool)
        ensures
            r == (self.view_select().arms.len() > 0 && arms_diverge(self.view_select().arms)),
        decreases self, 0nat,
    {
        let arms = &self.arms;
        let ghost av = arm_list_view(arms);
        assert(av == self.view_select().arms);
        if arms.len() == 0 {
            return false;
        }
        let mut i: usize = 0;
        while i < arms.len()
            invariant
                av == arm_list_view(arms),
                av.len() == arms@.len(),
                i <= arms@.len(),
                arms_diverge(av.take(i as int)),
            decreases arms@.len() - i,
        {
            proof {
                assert(decreases_to!(*arms => arms[i as int]));
                assert(av.take(i + 1).drop_last() =~= av.take(i as int));
                assert(av[i as int] == arms@[i as int].view_arm());
            }
            proof {
                assert(decreases_to!(*self => self.arms));
                assert(decreases_to!(*self => arms[i as int]));
            }
            if !arms[i].body_diverges() {
                proof {
                    lemma_arms_diverge_prefix(av, i + 1);
                }
                return false;
            }
            i = i + 1;
        }
        proof {
            assert(av.take(i as int) =~= av);
        }
        true
    }
}

pub proof fn lemma_arms_diverge_prefix(arms: Seq<ArmView>, n: int)
    requires
        0 <= n <= arms.len(),
        !arms_diverge(arms.take(n)),
    ensures
        !arms_diverge(arms),
    decreases arms.len() - n,
{
    if n < arms.len() {
        assert(arms.take(n + 1).drop_last() =~= arms.take(n));
        lemma_arms_diverge_prefix(arms, n + 1);
    } else {
        assert(arms.take(n) =~= arms);
    }
}

/// A block ends control when its last statement does: a `return`, `break`,
/// `continue` or unreachable panic ends it; an empty block, or one ending in
/// a definition, falls through; an `if` ends control only when its branch
/// does and it has an `else` that does too.
pub proof fn law_what_ends_control(
    prefix: Seq<StmtView>,
    values: Seq<crate::model::ExprView>,
    transfer: crate::model::TransferView,
    definition: DefView,
    plan: IfView,
)
    ensures
        block_diverges(prefix.push(StmtView::Return(values))),
        block_diverges(prefix.push(StmtView::Break(transfer))),
        block_diverges(prefix.push(StmtView::Continue(transfer))),
        block_diverges(prefix.push(StmtView::UnreachablePanic)),
        !block_diverges(Seq::empty()),
        !block_diverges(prefix.push(StmtView::Define(definition))),
        !stmt_diverges(StmtView::If(IfView { else_arm: ElseView::NoElse, ..plan })),
        stmt_diverges(StmtView::If(plan)) ==> block_diverges(plan.then_body),
{
    let open_plan = IfView { else_arm: ElseView::NoElse, ..plan };
    assert(stmt_diverges(StmtView::If(open_plan)) == if_diverges(open_plan));
    assert(!if_diverges(open_plan));
    assert(stmt_diverges(StmtView::If(plan)) == if_diverges(plan));
}

} // verus!
