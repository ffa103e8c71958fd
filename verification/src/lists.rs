//! Rewriting every statement list of a body: the top list first, then each
//! list nested in the statements it became, `else if` chains included.
//! Function literal bodies belong to expressions and stay as they are.

use crate::bodies::{
    AssignForm, CompoundKind, ElseArm, IfPlan, LoopPlan, LoweredBlock, LoweredStatement,
    SelectArmPlan, SelectStatementPlan, SwitchCasePlan, SwitchStatementPlan,
};
use crate::model::{
    arm_list_view, case_list_view, stmt_list_view, ArmView, AssignView, CaseView, CompoundView,
    ElseView, IfView, LoopView, SelectView, StmtView, SwitchView, ValueView,
};
use crate::values::ValuePlan;
use vstd::prelude::*;
use vstd::pervasive::VecAdditionalExecFns;

verus! {

/// A rewrite of one statement list.
pub trait ListRewrite {
    spec fn rewritten(&self, statements: Seq<StmtView>) -> Seq<StmtView>;

    fn rewrite(&self, statements: Vec<LoweredStatement>) -> (r: Vec<LoweredStatement>)
        ensures
            stmt_list_view(&r) == self.rewritten(stmt_list_view(&statements)),
    ;
}

/// The rewrite that a pass makes of one list.
pub open spec fn pass_fn<P: ListRewrite>(pass: P) -> spec_fn(Seq<StmtView>) -> Seq<StmtView> {
    |ss: Seq<StmtView>| pass.rewritten(ss)
}

/// How deep the lists of a body may nest for every one of them to be
/// rewritten; no body held in memory nests deeper.
pub open spec fn depth_bound() -> nat {
    usize::MAX as nat
}

/// The pass run over every list: each list first, then the lists nested in
/// the statements it became.
pub open spec fn tree_rewritten<P: ListRewrite>(pass: P, ss: Seq<StmtView>) -> Seq<StmtView> {
    tree_map(pass_fn(pass), ss, depth_bound())
}

/// The list rewritten by `f`, then the lists nested in its statements, down
/// to `depth` levels of nesting.
pub open spec fn tree_map(f: spec_fn(Seq<StmtView>) -> Seq<StmtView>, ss: Seq<StmtView>, depth: nat) -> Seq<StmtView>
    decreases depth, 1nat, ss,
{
    if depth == 0 {
        ss
    } else {
        all_nested_rewritten(f, f(ss), (depth - 1) as nat)
    }
}

/// Each statement of the list with the lists nested in it rewritten.
pub open spec fn all_nested_rewritten(f: spec_fn(Seq<StmtView>) -> Seq<StmtView>, ss: Seq<StmtView>, depth: nat) -> Seq<StmtView>
    decreases depth, 3nat, ss,
{
    Seq::new(
        ss.len(),
        |i: int|
            if 0 <= i < ss.len() {
                nested_rewritten(f, ss[i], depth)
            } else {
                StmtView::UnreachablePanic
            },
    )
}

pub open spec fn value_tree(f: spec_fn(Seq<StmtView>) -> Seq<StmtView>, v: ValueView, depth: nat) -> ValueView
    decreases depth, 2nat, v,
{
    ValueView { setup: tree_map(f, v.setup, depth), ..v }
}

pub open spec fn if_tree(f: spec_fn(Seq<StmtView>) -> Seq<StmtView>, plan: IfView, depth: nat) -> IfView
    decreases depth, 2nat, plan,
{
    IfView {
        condition_setup: tree_map(f, plan.condition_setup, depth),
        then_body: tree_map(f, plan.then_body, depth),
        else_arm: else_tree(f, plan.else_arm, depth),
        ..plan
    }
}

pub open spec fn else_tree(f: spec_fn(Seq<StmtView>) -> Seq<StmtView>, arm: ElseView, depth: nat) -> ElseView
    decreases depth, 2nat, arm,
{
    match arm {
        ElseView::NoElse => ElseView::NoElse,
        ElseView::ElseIf(inner) => ElseView::ElseIf(Box::new(if_tree(f, *inner, depth))),
        ElseView::Else { body, inline } => ElseView::Else { body: tree_map(f, body, depth), inline },
    }
}

pub open spec fn arm_tree(f: spec_fn(Seq<StmtView>) -> Seq<StmtView>, arm: ArmView, depth: nat) -> ArmView
    decreases depth, 2nat, arm,
{
    match arm {
        ArmView::Receive { receive_vars, channel, body } => ArmView::Receive {
            receive_vars,
            channel,
            body: tree_map(f, body, depth),
        },
        ArmView::Send { channel, value, body } => ArmView::Send {
            channel,
            value,
            body: tree_map(f, body, depth),
        },
        ArmView::Default { body } => ArmView::Default { body: tree_map(f, body, depth) },
    }
}

pub open spec fn select_tree(f: spec_fn(Seq<StmtView>) -> Seq<StmtView>, plan: SelectView, depth: nat) -> SelectView
    decreases depth, 2nat, plan,
{
    SelectView {
        setup: tree_map(f, plan.setup, depth),
        arms: Seq::new(
            plan.arms.len(),
            |i: int|
                if 0 <= i < plan.arms.len() {
                    arm_tree(f, plan.arms[i], depth)
                } else {
                    ArmView::Default { body: Seq::empty() }
                },
        ),
        postlude: tree_map(f, plan.postlude, depth),
        ..plan
    }
}

pub open spec fn switch_tree(f: spec_fn(Seq<StmtView>) -> Seq<StmtView>, plan: SwitchView, depth: nat) -> SwitchView
    decreases depth, 2nat, plan,
{
    SwitchView {
        cases: Seq::new(
            plan.cases.len(),
            |i: int|
                if 0 <= i < plan.cases.len() {
                    CaseView {
                        labels: plan.cases[i].labels,
                        body: tree_map(f, plan.cases[i].body, depth),
                    }
                } else {
                    CaseView { labels: Seq::empty(), body: Seq::empty() }
                },
        ),
        default: match plan.default {
            Some(body) => Some(tree_map(f, body, depth)),
            None => None,
        },
        postlude: tree_map(f, plan.postlude, depth),
        ..plan
    }
}

pub open spec fn assign_tree(f: spec_fn(Seq<StmtView>) -> Seq<StmtView>, form: AssignView, depth: nat) -> AssignView
    decreases depth, 2nat, form,
{
    match form {
        AssignView::Compound { target_capture, target, kind } => AssignView::Compound {
            target_capture: tree_map(f, target_capture, depth),
            target,
            kind: match kind {
                CompoundView::OpAssign { op_text, rhs, pinned_left } => CompoundView::OpAssign {
                    op_text,
                    rhs: value_tree(f, rhs, depth),
                    pinned_left,
                },
                _ => kind,
            },
        },
        AssignView::Simple { target_capture, target, value } => AssignView::Simple {
            target_capture: tree_map(f, target_capture, depth),
            target,
            value: value_tree(f, value, depth),
        },
    }
}

/// The statement with every list nested in it rewritten.
pub open spec fn nested_rewritten(f: spec_fn(Seq<StmtView>) -> Seq<StmtView>, s: StmtView, depth: nat) -> StmtView
    decreases depth, 2nat, s,
{
    match s {
        StmtView::If(plan) => StmtView::If(if_tree(f, plan, depth)),
        StmtView::Loop(plan) => StmtView::Loop(
            LoopView {
                prologue: tree_map(f, plan.prologue, depth),
                body: tree_map(f, plan.body, depth),
                ..plan
            },
        ),
        StmtView::Block(body) => StmtView::Block(tree_map(f, body, depth)),
        StmtView::Body(body) => StmtView::Body(tree_map(f, body, depth)),
        StmtView::WhileLet(body) => StmtView::WhileLet(tree_map(f, body, depth)),
        StmtView::Assign(form) => StmtView::Assign(assign_tree(f, form, depth)),
        StmtView::Select(plan) => StmtView::Select(select_tree(f, plan, depth)),
        StmtView::Switch(plan) => StmtView::Switch(switch_tree(f, plan, depth)),
        StmtView::Directed { directive, inner } => StmtView::Directed {
            directive,
            inner: Box::new(nested_rewritten(f, *inner, depth)),
        },
        _ => s,
    }
}

} // verus!

verus! {

#[verifier::loop_isolation(false)]
fn rewritten_statements<P: ListRewrite>(pass: &P, statements: Vec<LoweredStatement>, depth: usize) -> (r: Vec<LoweredStatement>)
    ensures
        stmt_list_view(&r) == tree_map(pass_fn(*pass), stmt_list_view(&statements), depth as nat),
    decreases depth, 1nat, statements,
{
    if depth == 0 {
        return statements;
    }
    let inner = depth - 1;
    let statements = pass.rewrite(statements);
    let ghost before = statements;
    let mut statements = statements;
    let mut i: usize = 0;
    while i < statements.len()
        invariant
            statements@.len() == before@.len(),
            i <= statements@.len(),
            forall|j: int| i <= j < statements@.len() ==> #[trigger] statements@[j] == before@[j],
            forall|j: int| 0 <= j < i ==> #[trigger] statements@[j]@ == nested_rewritten(pass_fn(*pass), before@[j]@, inner as nat),
        decreases statements@.len() - i,
    {
        let mut item = LoweredStatement::UnreachablePanic;
        statements.set_and_swap(i, &mut item);
        let mut item = rewritten_nested(pass, item, inner);
        statements.set_and_swap(i, &mut item);
        i = i + 1;
    }
    proof {
        let ss = stmt_list_view(&before);
        let target = all_nested_rewritten(pass_fn(*pass), ss, inner as nat);
        assert forall|j: int| 0 <= j < statements@.len() implies #[trigger] stmt_list_view(&statements)[j] == target[j] by {
            assert(stmt_list_view(&statements)[j] == statements@[j]@);
            assert(stmt_list_view(&before)[j] == before@[j]@);
        }
        assert(stmt_list_view(&statements) =~= target);
    }
    statements
}

fn rewritten_block<P: ListRewrite>(pass: &P, block: LoweredBlock, depth: usize) -> (r: LoweredBlock)
    ensures
        r@ == tree_map(pass_fn(*pass), block@, depth as nat),
    decreases depth, 2nat, block,
{
    LoweredBlock { statements: rewritten_statements(pass, block.statements, depth) }
}

fn rewritten_value<P: ListRewrite>(pass: &P, value: ValuePlan, depth: usize) -> (r: ValuePlan)
    ensures
        r@ == value_tree(pass_fn(*pass), value@, depth as nat),
    decreases depth, 2nat, value,
{
    let ValuePlan { setup, expression, evaluation } = value;
    ValuePlan { setup: rewritten_statements(pass, setup, depth), expression, evaluation }
}

fn rewritten_if<P: ListRewrite>(pass: &P, plan: IfPlan, depth: usize) -> (r: IfPlan)
    ensures
        r@ == if_tree(pass_fn(*pass), plan@, depth as nat),
    decreases depth, 2nat, plan,
{
    let ghost whole = plan;
    let IfPlan { condition_setup, initializer, condition, then_body, else_arm } = plan;
    let condition_setup = rewritten_statements(pass, condition_setup, depth);
    let then_body = rewritten_block(pass, then_body, depth);
    proof {
        assert(decreases_to!(whole => whole.else_arm));
    }
    let else_arm = rewritten_else(pass, else_arm, depth);
    IfPlan { condition_setup, initializer, condition, then_body, else_arm }
}

fn rewritten_else<P: ListRewrite>(pass: &P, arm: ElseArm, depth: usize) -> (r: ElseArm)
    ensures
        r.view_else() == else_tree(pass_fn(*pass), arm.view_else(), depth as nat),
    decreases depth, 2nat, arm,
{
    match arm {
        ElseArm::NoElse => ElseArm::NoElse,
        ElseArm::ElseIf(inner) => {
            let ghost iv = (*inner)@;
            ElseArm::ElseIf(Box::new(rewritten_if(pass, *inner, depth)))
        },
        ElseArm::Else { body, inline } => ElseArm::Else { body: rewritten_block(pass, body, depth), inline },
    }
}

fn rewritten_arm<P: ListRewrite>(pass: &P, arm: SelectArmPlan, depth: usize) -> (r: SelectArmPlan)
    ensures
        r.view_arm() == arm_tree(pass_fn(*pass), arm.view_arm(), depth as nat),
    decreases depth, 2nat, arm,
{
    match arm {
        SelectArmPlan::Receive { receive_vars, channel, body } => SelectArmPlan::Receive {
            receive_vars,
            channel,
            body: rewritten_block(pass, body, depth),
        },
        SelectArmPlan::Send { channel, value, body } => SelectArmPlan::Send {
            channel,
            value,
            body: rewritten_block(pass, body, depth),
        },
        SelectArmPlan::Default { body } => SelectArmPlan::Default { body: rewritten_block(pass, body, depth) },
    }
}

#[verifier::loop_isolation(false)]
fn rewritten_select<P: ListRewrite>(pass: &P, plan: SelectStatementPlan, depth: usize) -> (r: SelectStatementPlan)
    ensures
        r.view_select() == select_tree(pass_fn(*pass), plan.view_select(), depth as nat),
    decreases depth, 2nat, plan,
{
    let ghost whole = plan;
    let ghost pv = plan.view_select();
    let SelectStatementPlan { setup, retry_loop, arms, postlude } = plan;
    let setup = rewritten_statements(pass, setup, depth);
    let ghost before = arms;
    let mut arms = arms;
    let mut i: usize = 0;
    while i < arms.len()
        invariant
            arms@.len() == before@.len(),
            i <= arms@.len(),
            forall|j: int| i <= j < arms@.len() ==> #[trigger] arms@[j] == before@[j],
            forall|j: int| 0 <= j < i ==> #[trigger] arms@[j].view_arm() == arm_tree(pass_fn(*pass), before@[j].view_arm(), depth as nat),
        decreases arms@.len() - i,
    {
        let mut item = SelectArmPlan::Default { body: LoweredBlock { statements: Vec::new() } };
        arms.set_and_swap(i, &mut item);
        proof {
            assert(decreases_to!(whole => whole.arms));
            assert(decreases_to!(before => before[i as int]));
            assert(decreases_to!(whole => item));
        }
        let mut item = rewritten_arm(pass, item, depth);
        arms.set_and_swap(i, &mut item);
        i = i + 1;
    }
    let postlude = rewritten_statements(pass, postlude, depth);
    let r = SelectStatementPlan { setup, retry_loop, arms, postlude };
    proof {
        let target = select_tree(pass_fn(*pass), pv, depth as nat).arms;
        assert forall|j: int| 0 <= j < arms@.len() implies #[trigger] r.view_select().arms[j] == target[j] by {
            assert(r.view_select().arms[j] == arms@[j].view_arm());
            assert(pv.arms[j] == before@[j].view_arm());
        }
        assert(r.view_select().arms =~= target);
    }
    r
}

#[verifier::loop_isolation(false)]
fn rewritten_switch<P: ListRewrite>(pass: &P, plan: SwitchStatementPlan, depth: usize) -> (r: SwitchStatementPlan)
    ensures
        r.view_switch() == switch_tree(pass_fn(*pass), plan.view_switch(), depth as nat),
    decreases depth, 2nat, plan,
{
    let ghost whole = plan;
    let ghost pv = plan.view_switch();
    let SwitchStatementPlan { kind, cases, default, postlude } = plan;
    let ghost before = cases;
    let mut cases = cases;
    let mut i: usize = 0;
    while i < cases.len()
        invariant
            cases@.len() == before@.len(),
            i <= cases@.len(),
            forall|j: int| i <= j < cases@.len() ==> #[trigger] cases@[j] == before@[j],
            forall|j: int| 0 <= j < i ==> #[trigger] cases@[j].view_case() == (CaseView {
                labels: before@[j].view_case().labels,
                body: tree_map(pass_fn(*pass), before@[j].view_case().body, depth as nat),
            }),
        decreases cases@.len() - i,
    {
        let mut item = SwitchCasePlan { labels: Vec::new(), body: LoweredBlock { statements: Vec::new() } };
        cases.set_and_swap(i, &mut item);
        proof {
            assert(decreases_to!(whole => whole.cases));
            assert(decreases_to!(before => before[i as int]));
            assert(decreases_to!(whole => item));
            assert(decreases_to!(item => item.body));
        }
        let SwitchCasePlan { labels, body } = item;
        let mut item = SwitchCasePlan { labels, body: rewritten_block(pass, body, depth) };
        cases.set_and_swap(i, &mut item);
        i = i + 1;
    }
    let default = match default {
        Some(body) => Some(rewritten_block(pass, body, depth)),
        None => None,
    };
    let postlude = rewritten_statements(pass, postlude, depth);
    let r = SwitchStatementPlan { kind, cases, default, postlude };
    proof {
        let target = switch_tree(pass_fn(*pass), pv, depth as nat).cases;
        assert forall|j: int| 0 <= j < cases@.len() implies #[trigger] r.view_switch().cases[j] == target[j] by {
            assert(r.view_switch().cases[j] == cases@[j].view_case());
            assert(pv.cases[j] == before@[j].view_case());
        }
        assert(r.view_switch().cases =~= target);
    }
    r
}

fn rewritten_assign<P: ListRewrite>(pass: &P, form: AssignForm, depth: usize) -> (r: AssignForm)
    ensures
        r.view_assign() == assign_tree(pass_fn(*pass), form.view_assign(), depth as nat),
    decreases depth, 2nat, form,
{
    match form {
        AssignForm::Compound { target_capture, target, kind } => {
            let ghost kv = kind.view_compound();
            let target_capture = rewritten_statements(pass, target_capture, depth);
            let kind = match kind {
                CompoundKind::OpAssign { op_text, rhs, pinned_left } => {
                    let ghost rv = (*rhs)@;
                    let rhs = rewritten_value(pass, *rhs, depth);
                    let k = CompoundKind::OpAssign { op_text, rhs: Box::new(rhs), pinned_left };
                    assert(k.view_compound() == CompoundView::OpAssign {
                        op_text: op_text@,
                        rhs: rhs@,
                        pinned_left: kv->OpAssign_pinned_left,
                    });
                    k
                },
                other => other,
            };
            AssignForm::Compound { target_capture, target, kind }
        },
        AssignForm::Simple { target_capture, target, value } => AssignForm::Simple {
            target_capture: rewritten_statements(pass, target_capture, depth),
            target,
            value: rewritten_value(pass, value, depth),
        },
    }
}

fn rewritten_nested<P: ListRewrite>(pass: &P, statement: LoweredStatement, depth: usize) -> (r: LoweredStatement)
    ensures
        r@ == nested_rewritten(pass_fn(*pass), statement@, depth as nat),
    decreases depth, 2nat, statement,
{
    let ghost sv = statement@;
    match statement {
        LoweredStatement::If(plan) => {
            assert(sv == StmtView::If(plan@));
            let plan = rewritten_if(pass, plan, depth);
            let r = LoweredStatement::If(plan);
            assert(r@ == StmtView::If(plan@));
            r
        },
        LoweredStatement::Loop(plan) => {
            let ghost pv = plan.view_loop();
            assert(sv == StmtView::Loop(pv));
            let LoopPlan { prologue, kind, header, body } = plan;
            let r = LoopPlan {
                prologue: rewritten_statements(pass, prologue, depth),
                kind,
                header,
                body: rewritten_block(pass, body, depth),
            };
            assert(r.view_loop() == LoopView {
                prologue: tree_map(pass_fn(*pass), pv.prologue, depth as nat),
                body: tree_map(pass_fn(*pass), pv.body, depth as nat),
                ..pv
            });
            let r = LoweredStatement::Loop(r);
            r
        },
        LoweredStatement::Block(body) => LoweredStatement::Block(rewritten_block(pass, body, depth)),
        LoweredStatement::Body(body) => LoweredStatement::Body(rewritten_block(pass, body, depth)),
        LoweredStatement::WhileLet(body) => LoweredStatement::WhileLet(rewritten_block(pass, body, depth)),
        LoweredStatement::Assign(form) => LoweredStatement::Assign(rewritten_assign(pass, form, depth)),
        LoweredStatement::Select(plan) => LoweredStatement::Select(rewritten_select(pass, plan, depth)),
        LoweredStatement::Switch(plan) => LoweredStatement::Switch(rewritten_switch(pass, plan, depth)),
        LoweredStatement::Directed { directive, inner } => {
            let ghost iv = (*inner)@;
            assert(sv == StmtView::Directed { directive: directive@, inner: Box::new(iv) });
            let inner = rewritten_nested(pass, *inner, depth);
            let r = LoweredStatement::Directed { directive, inner: Box::new(inner) };
            assert(r@ == StmtView::Directed { directive: directive@, inner: Box::new(inner@) });
            r
        },
        other => other,
    }
}

/// Rewrites every statement list of the body: each list first, then the
/// lists nested in the statements it became.
pub fn for_each_statements_mut<P: ListRewrite>(statements: &mut Vec<LoweredStatement>, pass: &P)
    ensures
        stmt_list_view(final(statements)) == tree_rewritten(*pass, stmt_list_view(old(statements))),
{
    let mut taken: Vec<LoweredStatement> = Vec::new();
    std::mem::swap(statements, &mut taken);
    *statements = rewritten_statements(pass, taken, usize::MAX);
}

impl LoweredStatement {
    /// Rewrites every statement list nested in the statement, each list
    /// first and then the lists nested in it.
    pub fn for_each_nested_statements_mut<P: ListRewrite>(&mut self, pass: &P)
        ensures
            final(self)@ == nested_rewritten(pass_fn(*pass), old(self)@, depth_bound()),
    {
        let mut taken = LoweredStatement::UnreachablePanic;
        std::mem::swap(self, &mut taken);
        *self = rewritten_nested(pass, taken, usize::MAX);
    }
}

impl IfPlan {
    /// Rewrites the statement lists of the `if`: its setup, its body and each
    /// `else` along the chain.
    pub fn for_each_statements_mut<P: ListRewrite>(&mut self, pass: &P)
        ensures
            final(self)@ == if_tree(pass_fn(*pass), old(self)@, depth_bound()),
    {
        let mut taken = IfPlan::plain(
            crate::values::GoExpression::empty(),
            LoweredBlock { statements: Vec::new() },
            ElseArm::NoElse,
        );
        std::mem::swap(self, &mut taken);
        *self = rewritten_if(pass, taken, usize::MAX);
    }
}

} // verus!
