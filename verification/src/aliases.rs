//! Inlining a temporary that only copies another name: the read of the
//! temporary in the next statement takes the name it copies, where that keeps
//! the order in which Go evaluates the statement.

use crate::bodies::{
    AssignForm, CompoundKind, Definition, IfPlan, LoweredStatement, SelectArmPlan,
    SelectStatementPlan, SwitchKind, SwitchStatementPlan,
};
use crate::cleanup::{
    alias_define, alias_define_of, analysis_of, analyze, first_reader, first_reader_index,
    other_work, read_once, Analysis, NameUses,
};
use crate::model::{
    arm_list_view, expr_list_view, rename_node, stmt_list_view, ArmView, AssignView,
    CompoundView, DefView, ExprView, IfView, SelectView, StmtView, SwitchKindView, SwitchView,
    ValueView,
};
use crate::values::{GoExpression, ValuePlan};
use vstd::prelude::*;
use vstd::pervasive::VecAdditionalExecFns;

verus! {

/// The expression with each read of `temp` reading `source`.
pub open spec fn renamed_expr(e: ExprView, temp: Seq<char>, source: Seq<char>) -> ExprView {
    ExprView { node: rename_node(e.node, temp, source), constant: e.constant }
}

/// What each sibling does with the temporary.
pub open spec fn sibling_analyses(siblings: Seq<ExprView>, temp: Seq<char>) -> Seq<Analysis> {
    Seq::new(siblings.len(), |i: int| analysis_of(siblings[i].node, temp))
}

pub open spec fn opt_index(written: Option<usize>) -> Option<int> {
    match written {
        Some(w) => Some(w as int),
        None => None,
    }
}

/// The sibling whose read of the temporary can read the source instead: the
/// first one that reads it, where it reads it once, in an order that the
/// rename keeps, is not the place assigned to, and no other sibling does
/// work.
pub open spec fn rename_target(analyses: Seq<Analysis>, written: Option<int>) -> Option<int> {
    match first_reader(analyses) {
        Some(r) => if written == Some(r) || analyses[r].reads != 1 || !analyses[r].ordered
            || other_work(analyses, Some(r)) {
            None
        } else {
            Some(r)
        },
        None => None,
    }
}

/// The sibling at `r` renamed, the others as they are.
pub open spec fn pick(e: ExprView, i: int, r: int, temp: Seq<char>, source: Seq<char>) -> ExprView {
    if i == r {
        renamed_expr(e, temp, source)
    } else {
        e
    }
}

/// The siblings with the one read of the temporary reading the source, where
/// the rename is safe.
pub open spec fn rename_in_spec(
    siblings: Seq<ExprView>,
    written: Option<int>,
    temp: Seq<char>,
    source: Seq<char>,
) -> Option<Seq<ExprView>> {
    match rename_target(sibling_analyses(siblings, temp), written) {
        Some(r) => Some(siblings.update(r, renamed_expr(siblings[r], temp, source))),
        None => None,
    }
}

pub proof fn lemma_first_reader_bounds(analyses: Seq<Analysis>)
    ensures
        match first_reader(analyses) {
            Some(r) => 0 <= r < analyses.len() && analyses[r].reads > 0,
            None => forall|i: int| 0 <= i < analyses.len() ==> #[trigger] analyses[i].reads == 0,
        },
    decreases analyses.len(),
{
    if analyses.len() > 0 {
        lemma_first_reader_bounds(analyses.drop_last());
        assert forall|i: int| 0 <= i < analyses.len() - 1 implies analyses.drop_last()[i] == #[trigger] analyses[i] by {}
    }
}

/// The sibling a rename goes to, by [`rename_target`].
pub fn rename_target_of(analyses: &Vec<Analysis>, written: Option<usize>) -> (r: Option<usize>)
    ensures
        match r {
            Some(i) => rename_target(analyses@, opt_index(written)) == Some(i as int),
            None => rename_target(analyses@, opt_index(written)) is None,
        },
{
    let reader = first_reader_index(analyses);
    let k = match reader {
        Some(k) => k,
        None => {
            return None;
        },
    };
    proof {
        lemma_first_reader_bounds(analyses@);
    }
    let is_written = match written {
        Some(w) => w == k,
        None => false,
    };
    if is_written || analyses[k].reads != 1 || !analyses[k].ordered {
        return None;
    }
    let mut j: usize = 0;
    while j < analyses.len()
        invariant
            j <= analyses@.len(),
            k < analyses@.len(),
            first_reader(analyses@) == Some(k as int),
            forall|i: int| 0 <= i < j && i != k ==> !(#[trigger] analyses@[i]).works,
        decreases analyses@.len() - j,
    {
        if j != k && analyses[j].works {
            assert(other_work(analyses@, Some(k as int)));
            return None;
        }
        j = j + 1;
    }
    assert(!other_work(analyses@, Some(k as int)));
    Some(k)
}

/// What each sibling does with the temporary.
fn analyses_of(siblings: &Vec<GoExpression>, temp: &str) -> (v: Vec<Analysis>)
    ensures
        v@ == sibling_analyses(expr_list_view(siblings), temp@),
{
    let ghost sv = expr_list_view(siblings);
    let mut v: Vec<Analysis> = Vec::new();
    let mut i: usize = 0;
    while i < siblings.len()
        invariant
            sv == expr_list_view(siblings),
            i <= siblings@.len(),
            v@.len() == i,
            forall|j: int| 0 <= j < i ==> #[trigger] v@[j] == analysis_of(sv[j].node, temp@),
        decreases siblings@.len() - i,
    {
        assert(sv[i as int] == siblings@[i as int]@);
        v.push(analyze(&siblings[i].node, temp));
        i = i + 1;
    }
    assert(v@ =~= sibling_analyses(sv, temp@));
    v
}

/// Renames the one read of `temp` among the siblings to `source`, where the
/// sibling that reads it reads it once, keeps its order of evaluation, is not
/// the place at `written`, and no other sibling does work. Whether it did.
pub fn rename_in(siblings: &mut Vec<GoExpression>, written: Option<usize>, temp: &str, source: &str) -> (renamed: bool)
    ensures
        final(siblings)@.len() == old(siblings)@.len(),
        match rename_in_spec(expr_list_view(old(siblings)), opt_index(written), temp@, source@) {
            Some(v) => renamed && expr_list_view(final(siblings)) == v,
            None => !renamed && final(siblings)@ == old(siblings)@,
        },
{
    let ghost before = expr_list_view(siblings);
    let analyses = analyses_of(siblings, temp);
    match rename_target_of(&analyses, written) {
        Some(r) => {
            proof {
                lemma_first_reader_bounds(analyses@);
            }
            assert(before[r as int] == siblings@[r as int]@);
            let mut e = GoExpression::empty();
            siblings.set_and_swap(r, &mut e);
            e.rename_identifier(temp, source);
            siblings.set_and_swap(r, &mut e);
            assert(expr_list_view(siblings) =~= before.update(r as int, renamed_expr(before[r as int], temp@, source@)));
            true
        },
        None => false,
    }
}

} // verus!

verus! {

// ---------------------------------------------------------------------------
// The statement after the alias
// ---------------------------------------------------------------------------

pub open spec fn opt_expr(e: Option<GoExpression>) -> Option<ExprView> {
    match e {
        Some(x) => Some(x@),
        None => None,
    }
}

pub open spec fn opt_exprs(e: Option<ExprView>) -> Seq<ExprView> {
    match e {
        Some(x) => seq![x],
        None => Seq::empty(),
    }
}

pub open spec fn define_replaced(d: DefView, temp: Seq<char>, source: Seq<char>) -> Option<StmtView> {
    if d.names.contains(source) {
        None
    } else {
        match rename_in_spec(seq![d.value], None, temp, source) {
            Some(v) => Some(StmtView::Define(DefView { names: d.names, value: v[0] })),
            None => None,
        }
    }
}

pub open spec fn simple_replaced(
    target_capture: Seq<StmtView>,
    target: ExprView,
    value: ValueView,
    temp: Seq<char>,
    source: Seq<char>,
) -> Option<StmtView> {
    if target_capture.len() == 0 && value.setup.len() == 0 {
        match rename_in_spec(seq![target, value.expression], Some(0), temp, source) {
            Some(v) => Some(
                StmtView::Assign(
                    AssignView::Simple { target_capture, target: v[0], value: ValueView { expression: v[1], ..value } },
                ),
            ),
            None => None,
        }
    } else {
        None
    }
}

pub open spec fn compound_replaced(
    target_capture: Seq<StmtView>,
    target: ExprView,
    op_text: Seq<char>,
    rhs: ValueView,
    pinned_left: Option<ExprView>,
    temp: Seq<char>,
    source: Seq<char>,
) -> Option<StmtView> {
    if target_capture.len() == 0 && rhs.setup.len() == 0 {
        match rename_in_spec(seq![target, rhs.expression] + opt_exprs(pinned_left), Some(0), temp, source) {
            Some(v) => Some(
                StmtView::Assign(
                    AssignView::Compound {
                        target_capture,
                        target: v[0],
                        kind: CompoundView::OpAssign {
                            op_text,
                            rhs: ValueView { expression: v[1], ..rhs },
                            pinned_left: match pinned_left {
                                Some(_) => Some(v[2]),
                                None => None,
                            },
                        },
                    },
                ),
            ),
            None => None,
        }
    } else {
        None
    }
}

pub open spec fn assign_replaced(form: AssignView, temp: Seq<char>, source: Seq<char>) -> Option<StmtView> {
    match form {
        AssignView::Simple { target_capture, target, value } => simple_replaced(
            target_capture,
            target,
            value,
            temp,
            source,
        ),
        AssignView::Compound { target_capture, target, kind } => match kind {
            CompoundView::OpAssign { op_text, rhs, pinned_left } => compound_replaced(
                target_capture,
                target,
                op_text,
                rhs,
                pinned_left,
                temp,
                source,
            ),
            _ => None,
        },
    }
}

pub open spec fn switch_replaced(plan: SwitchView, temp: Seq<char>, source: Seq<char>) -> Option<StmtView> {
    match plan.kind {
        SwitchKindView::Value { subject } => match rename_in_spec(seq![subject], None, temp, source) {
            Some(v) => Some(StmtView::Switch(SwitchView { kind: SwitchKindView::Value { subject: v[0] }, ..plan })),
            None => None,
        },
        SwitchKindView::Type { subject, binding } => match rename_in_spec(seq![subject], None, temp, source) {
            Some(v) => Some(
                StmtView::Switch(SwitchView { kind: SwitchKindView::Type { subject: v[0], binding }, ..plan }),
            ),
            None => None,
        },
        SwitchKindView::Conditional => None,
    }
}

/// The expressions of an arm that a rename may reach, in order.
pub open spec fn arm_siblings(arm: ArmView) -> Seq<ExprView> {
    match arm {
        ArmView::Receive { channel, .. } => seq![channel],
        ArmView::Send { channel, value, .. } => seq![channel, value],
        ArmView::Default { .. } => Seq::empty(),
    }
}

/// The channels and sent values of all arms, in order.
pub open spec fn select_siblings(arms: Seq<ArmView>) -> Seq<ExprView>
    decreases arms.len(),
{
    if arms.len() == 0 {
        Seq::empty()
    } else {
        select_siblings(arms.drop_last()) + arm_siblings(arms.last())
    }
}

/// The arm with its sibling at `j` renamed.
pub open spec fn arm_renamed_at(arm: ArmView, j: int, temp: Seq<char>, source: Seq<char>) -> ArmView {
    match arm {
        ArmView::Receive { receive_vars, channel, body } => ArmView::Receive {
            receive_vars,
            channel: pick(channel, 0, j, temp, source),
            body,
        },
        ArmView::Send { channel, value, body } => ArmView::Send {
            channel: pick(channel, 0, j, temp, source),
            value: pick(value, 1, j, temp, source),
            body,
        },
        ArmView::Default { body } => arm,
    }
}

/// The arms with the sibling at `k`, counted over all arms, renamed.
pub open spec fn arms_renamed_at(arms: Seq<ArmView>, k: int, temp: Seq<char>, source: Seq<char>) -> Seq<ArmView>
    decreases arms.len(),
{
    if arms.len() == 0 {
        arms
    } else {
        arms_renamed_at(arms.drop_last(), k, temp, source).push(
            arm_renamed_at(arms.last(), k - select_siblings(arms.drop_last()).len(), temp, source),
        )
    }
}

pub open spec fn select_replaced(plan: SelectView, temp: Seq<char>, source: Seq<char>) -> Option<StmtView> {
    if plan.setup.len() == 0 {
        match rename_target(sibling_analyses(select_siblings(plan.arms), temp), None) {
            Some(r) => Some(StmtView::Select(SelectView { arms: arms_renamed_at(plan.arms, r, temp, source), ..plan })),
            None => None,
        }
    } else {
        None
    }
}

/// The statement with its one read of `temp` reading `source`, where the
/// statement is of a kind whose expressions can take the rename and the
/// rename is safe; `None` where not.
pub open spec fn replace_only_read_spec(s: StmtView, temp: Seq<char>, source: Seq<char>) -> Option<StmtView>
    decreases s,
{
    match s {
        StmtView::Directed { directive, inner } => match replace_only_read_spec(*inner, temp, source) {
            Some(n) => Some(StmtView::Directed { directive, inner: Box::new(n) }),
            None => None,
        },
        StmtView::Define(d) => define_replaced(d, temp, source),
        StmtView::Assign(form) => assign_replaced(form, temp, source),
        StmtView::Return(values) => match rename_in_spec(values, None, temp, source) {
            Some(v) => Some(StmtView::Return(v)),
            None => None,
        },
        StmtView::ExpressionStatement { expression, diverges } => match rename_in_spec(
            seq![expression],
            None,
            temp,
            source,
        ) {
            Some(v) => Some(StmtView::ExpressionStatement { expression: v[0], diverges }),
            None => None,
        },
        StmtView::If(plan) => if plan.condition_setup.len() == 0 && plan.initializer is None {
            match rename_in_spec(seq![plan.condition], None, temp, source) {
                Some(v) => Some(StmtView::If(IfView { condition: v[0], ..plan })),
                None => None,
            }
        } else {
            None
        },
        StmtView::Switch(plan) => switch_replaced(plan, temp, source),
        StmtView::Select(plan) => select_replaced(plan, temp, source),
        _ => None,
    }
}

/// A definition that binds the source name is never renamed into: reading
/// the source there would read the new binding. Neither are statements of a
/// kind whose expressions cannot take the rename, such as loops and blocks.
pub proof fn law_defining_the_source_blocks_the_rename(d: DefView, temp: Seq<char>, source: Seq<char>, other: StmtView)
    ensures
        d.names.contains(source) ==> replace_only_read_spec(StmtView::Define(d), temp, source) is None,
        (other is Loop || other is Block || other is Body || other is WhileLet || other is Break || other is Continue
            || other is UnreachablePanic) ==> replace_only_read_spec(other, temp, source) is None,
{
}

} // verus!

verus! {

fn take_last(v: &mut Vec<GoExpression>) -> (e: GoExpression)
    requires
        old(v)@.len() > 0,
    ensures
        e == old(v)@.last(),
        final(v)@ == old(v)@.drop_last(),
{
    match v.pop() {
        Some(e) => e,
        None => GoExpression::empty(),
    }
}

/// Renames the read in a lone expression, where it is safe.
fn rename_one(e: GoExpression, temp: &str, source: &str) -> (r: (GoExpression, bool))
    ensures
        match rename_in_spec(seq![e@], None, temp@, source@) {
            Some(v) => r.1 && r.0@ == v[0],
            None => !r.1 && r.0 == e,
        },
{
    let mut siblings: Vec<GoExpression> = Vec::new();
    siblings.push(e);
    assert(expr_list_view(&siblings) =~= seq![e@]);
    let renamed = rename_in(&mut siblings, None, temp, source);
    assert(expr_list_view(&siblings)[0] == siblings@[0]@);
    let e = take_last(&mut siblings);
    (e, renamed)
}

fn simple_renamed(
    target_capture: Vec<LoweredStatement>,
    target: GoExpression,
    value: ValuePlan,
    temp: &str,
    source: &str,
) -> (r: (LoweredStatement, bool))
    ensures
        match simple_replaced(stmt_list_view(&target_capture), target@, value@, temp@, source@) {
            Some(n) => r.1 && r.0@ == n,
            None => !r.1 && r.0@ == StmtView::Assign(
                AssignView::Simple { target_capture: stmt_list_view(&target_capture), target: target@, value: value@ },
            ),
        },
{
    let ghost tc = stmt_list_view(&target_capture);
    let ghost vv = value@;
    if target_capture.len() != 0 || value.setup.len() != 0 {
        let form = AssignForm::Simple { target_capture, target, value };
        assert(form.view_assign() == AssignView::Simple { target_capture: tc, target: target@, value: vv });
        return (LoweredStatement::Assign(form), false);
    }
    let ValuePlan { setup, expression, evaluation } = value;
    let mut siblings: Vec<GoExpression> = Vec::new();
    siblings.push(target);
    siblings.push(expression);
    assert(expr_list_view(&siblings) =~= seq![target@, expression@]);
    let renamed = rename_in(&mut siblings, Some(0), temp, source);
    let ghost after = expr_list_view(&siblings);
    assert(after[0] == siblings@[0]@);
    assert(after[1] == siblings@[1]@);
    let expression = take_last(&mut siblings);
    let target = take_last(&mut siblings);
    let value = ValuePlan { setup, expression, evaluation };
    assert(value@ == ValueView { expression: expression@, ..vv });
    let form = AssignForm::Simple { target_capture, target, value };
    assert(form.view_assign() == AssignView::Simple { target_capture: tc, target: target@, value: value@ });
    (LoweredStatement::Assign(form), renamed)
}

fn compound_renamed(
    target_capture: Vec<LoweredStatement>,
    target: GoExpression,
    op_text: String,
    rhs: ValuePlan,
    pinned_left: Option<GoExpression>,
    temp: &str,
    source: &str,
) -> (r: (LoweredStatement, bool))
    ensures
        match compound_replaced(
            stmt_list_view(&target_capture),
            target@,
            op_text@,
            rhs@,
            opt_expr(pinned_left),
            temp@,
            source@,
        ) {
            Some(n) => r.1 && r.0@ == n,
            None => !r.1 && r.0@ == StmtView::Assign(
                AssignView::Compound {
                    target_capture: stmt_list_view(&target_capture),
                    target: target@,
                    kind: CompoundView::OpAssign {
                        op_text: op_text@,
                        rhs: rhs@,
                        pinned_left: opt_expr(pinned_left),
                    },
                },
            ),
        },
{
    let ghost tc = stmt_list_view(&target_capture);
    let ghost rv = rhs@;
    let ghost pv = opt_expr(pinned_left);
    if target_capture.len() != 0 || rhs.setup.len() != 0 {
        let kind = CompoundKind::OpAssign { op_text, rhs: Box::new(rhs), pinned_left };
        assert(kind.view_compound() == CompoundView::OpAssign { op_text: op_text@, rhs: rv, pinned_left: pv });
        let form = AssignForm::Compound { target_capture, target, kind };
        assert(form.view_assign() == AssignView::Compound { target_capture: tc, target: target@, kind: kind.view_compound() });
        return (LoweredStatement::Assign(form), false);
    }
    let has_pinned = pinned_left.is_some();
    let ValuePlan { setup, expression, evaluation } = rhs;
    let mut siblings: Vec<GoExpression> = Vec::new();
    siblings.push(target);
    siblings.push(expression);
    match pinned_left {
        Some(p) => {
            siblings.push(p);
            assert(expr_list_view(&siblings) =~= seq![target@, expression@] + opt_exprs(pv));
        },
        None => {
            assert(expr_list_view(&siblings) =~= seq![target@, expression@] + opt_exprs(pv));
        },
    }
    let renamed = rename_in(&mut siblings, Some(0), temp, source);
    let ghost after = expr_list_view(&siblings);
    assert(after[0] == siblings@[0]@);
    assert(after[1] == siblings@[1]@);
    let pinned_left = if has_pinned {
        assert(after[2] == siblings@[2]@);
        Some(take_last(&mut siblings))
    } else {
        None
    };
    let expression = take_last(&mut siblings);
    let target = take_last(&mut siblings);
    let rhs = ValuePlan { setup, expression, evaluation };
    assert(rhs@ == ValueView { expression: expression@, ..rv });
    let ghost new_pv = opt_expr(pinned_left);
    let kind = CompoundKind::OpAssign { op_text, rhs: Box::new(rhs), pinned_left };
    assert(kind.view_compound() == CompoundView::OpAssign { op_text: op_text@, rhs: rhs@, pinned_left: new_pv });
    let form = AssignForm::Compound { target_capture, target, kind };
    assert(form.view_assign() == AssignView::Compound { target_capture: tc, target: target@, kind: kind.view_compound() });
    (LoweredStatement::Assign(form), renamed)
}

} // verus!

verus! {

pub proof fn lemma_sibling_analyses_concat(a: Seq<ExprView>, b: Seq<ExprView>, temp: Seq<char>)
    ensures
        sibling_analyses(a + b, temp) == sibling_analyses(a, temp) + sibling_analyses(b, temp),
{
    assert(sibling_analyses(a + b, temp) =~= sibling_analyses(a, temp) + sibling_analyses(b, temp));
}

/// What the channels and sent values of the arms do with the temporary.
fn select_analyses(arms: &Vec<SelectArmPlan>, temp: &str) -> (v: Vec<Analysis>)
    ensures
        v@ == sibling_analyses(select_siblings(arm_list_view(arms)), temp@),
{
    let ghost av = arm_list_view(arms);
    let mut v: Vec<Analysis> = Vec::new();
    assert(v@ =~= sibling_analyses(select_siblings(av.take(0)), temp@));
    let mut i: usize = 0;
    while i < arms.len()
        invariant
            av == arm_list_view(arms),
            av.len() == arms@.len(),
            i <= arms@.len(),
            v@ == sibling_analyses(select_siblings(av.take(i as int)), temp@),
        decreases arms@.len() - i,
    {
        let ghost before = v@;
        proof {
            assert(av.take(i + 1).drop_last() =~= av.take(i as int));
            assert(av[i as int] == arms@[i as int].view_arm());
            assert(select_siblings(av.take(i + 1)) == select_siblings(av.take(i as int)) + arm_siblings(av[i as int]));
            lemma_sibling_analyses_concat(select_siblings(av.take(i as int)), arm_siblings(av[i as int]), temp@);
        }
        match &arms[i] {
            SelectArmPlan::Receive { channel, .. } => {
                v.push(analyze(&channel.node, temp));
                assert(sibling_analyses(arm_siblings(av[i as int]), temp@) =~= seq![analysis_of(channel@.node, temp@)]);
            },
            SelectArmPlan::Send { channel, value, .. } => {
                v.push(analyze(&channel.node, temp));
                v.push(analyze(&value.node, temp));
                assert(sibling_analyses(arm_siblings(av[i as int]), temp@) =~= seq![
                    analysis_of(channel@.node, temp@),
                    analysis_of(value@.node, temp@),
                ]);
            },
            SelectArmPlan::Default { .. } => {
                assert(sibling_analyses(arm_siblings(av[i as int]), temp@) =~= Seq::<Analysis>::empty());
            },
        }
        assert(v@ =~= sibling_analyses(select_siblings(av.take(i + 1)), temp@));
        i = i + 1;
    }
    assert(av.take(i as int) =~= av);
    v
}

fn renamed_if_at(e: GoExpression, at: Option<usize>, slot: usize, temp: &str, source: &str) -> (r: GoExpression)
    ensures
        r@ == match at {
            Some(j) => pick(e@, slot as int, j as int, temp@, source@),
            None => e@,
        },
{
    let hit = match at {
        Some(j) => j == slot,
        None => false,
    };
    if hit {
        let mut e = e;
        e.rename_identifier(temp, source);
        e
    } else {
        e
    }
}

/// The arm with its sibling at `at`, counted within the arm, renamed;
/// `None` for an arm that holds no renamed sibling.
fn arm_renamed(arm: SelectArmPlan, at: Option<usize>, temp: &str, source: &str) -> (r: SelectArmPlan)
    ensures
        r.view_arm() == match at {
            Some(j) => arm_renamed_at(arm.view_arm(), j as int, temp@, source@),
            None => arm.view_arm(),
        },
{
    match arm {
        SelectArmPlan::Receive { receive_vars, channel, body } => SelectArmPlan::Receive {
            receive_vars,
            channel: renamed_if_at(channel, at, 0, temp, source),
            body,
        },
        SelectArmPlan::Send { channel, value, body } => SelectArmPlan::Send {
            channel: renamed_if_at(channel, at, 0, temp, source),
            value: renamed_if_at(value, at, 1, temp, source),
            body,
        },
        SelectArmPlan::Default { body } => SelectArmPlan::Default { body },
    }
}

fn arm_sibling_count(arm: &SelectArmPlan) -> (n: usize)
    ensures
        n == arm_siblings(arm.view_arm()).len(),
{
    match arm {
        SelectArmPlan::Receive { .. } => 1,
        SelectArmPlan::Send { .. } => 2,
        SelectArmPlan::Default { .. } => 0,
    }
}

pub proof fn lemma_arm_renamed_outside(arm: ArmView, j: int, temp: Seq<char>, source: Seq<char>)
    requires
        j < 0 || j >= arm_siblings(arm).len(),
    ensures
        arm_renamed_at(arm, j, temp, source) == arm,
{
}

/// The arms with the sibling at `k`, counted over all arms, renamed.
fn arms_renamed(arms: Vec<SelectArmPlan>, k: usize, temp: &str, source: &str) -> (r: Vec<SelectArmPlan>)
    ensures
        arm_list_view(&r) == arms_renamed_at(arm_list_view(&arms), k as int, temp@, source@),
{
    let ghost bv = arm_list_view(&arms);
    let mut arms = arms;
    let mut remaining: Option<usize> = Some(k);
    let mut i: usize = 0;
    assert(arms_renamed_at(bv.take(0), k as int, temp@, source@) =~= Seq::<ArmView>::empty());
    while i < arms.len()
        invariant
            bv.len() == arms@.len(),
            i <= arms@.len(),
            forall|j: int| i <= j < arms@.len() ==> (#[trigger] arms@[j]).view_arm() == bv[j],
            forall|j: int| 0 <= j < i ==> (#[trigger] arms@[j]).view_arm() == arms_renamed_at(bv.take(i as int), k as int, temp@, source@)[j],
            arms_renamed_at(bv.take(i as int), k as int, temp@, source@).len() == i,
            match remaining {
                Some(j) => j as int == k - select_siblings(bv.take(i as int)).len(),
                None => k - select_siblings(bv.take(i as int)).len() < 0,
            },
        decreases arms@.len() - i,
    {
        let ghost prefix = bv.take(i as int);
        let ghost done = arms_renamed_at(prefix, k as int, temp@, source@);
        proof {
            assert(bv.take(i + 1).drop_last() =~= prefix);
            assert(bv.take(i + 1).last() == bv[i as int]);
        }
        let mut item = SelectArmPlan::Default { body: crate::bodies::LoweredBlock { statements: Vec::new() } };
        arms.set_and_swap(i, &mut item);
        let count = arm_sibling_count(&item);
        let at = remaining;
        let mut renamed = arm_renamed(item, at, temp, source);
        proof {
            let local = k - select_siblings(prefix).len();
            if at is None {
                lemma_arm_renamed_outside(bv[i as int], local, temp@, source@);
            }
            assert(renamed.view_arm() == arm_renamed_at(bv[i as int], local, temp@, source@));
            assert(arms_renamed_at(bv.take(i + 1), k as int, temp@, source@) == done.push(renamed.view_arm()));
            assert(select_siblings(bv.take(i + 1)) == select_siblings(prefix) + arm_siblings(bv[i as int]));
        }
        remaining = match remaining {
            Some(j) => if j >= count {
                Some(j - count)
            } else {
                None
            },
            None => None,
        };
        arms.set_and_swap(i, &mut renamed);
        i = i + 1;
    }
    proof {
        assert(bv.take(i as int) =~= bv);
        assert(arm_list_view(&arms) =~= arms_renamed_at(bv, k as int, temp@, source@));
    }
    arms
}

fn select_renamed(plan: SelectStatementPlan, temp: &str, source: &str) -> (r: (LoweredStatement, bool))
    ensures
        match select_replaced(plan.view_select(), temp@, source@) {
            Some(n) => r.1 && r.0@ == n,
            None => !r.1 && r.0@ == StmtView::Select(plan.view_select()),
        },
{
    let ghost pv = plan.view_select();
    if plan.setup.len() != 0 {
        return (LoweredStatement::Select(plan), false);
    }
    let analyses = select_analyses(&plan.arms, temp);
    match rename_target_of(&analyses, None) {
        None => (LoweredStatement::Select(plan), false),
        Some(k) => {
            let SelectStatementPlan { setup, retry_loop, arms, postlude } = plan;
            let arms = arms_renamed(arms, k, temp, source);
            let plan = SelectStatementPlan { setup, retry_loop, arms, postlude };
            assert(plan.view_select() == SelectView { arms: arms_renamed_at(pv.arms, k as int, temp@, source@), ..pv });
            (LoweredStatement::Select(plan), true)
        },
    }
}

fn switch_renamed(plan: SwitchStatementPlan, temp: &str, source: &str) -> (r: (LoweredStatement, bool))
    ensures
        match switch_replaced(plan.view_switch(), temp@, source@) {
            Some(n) => r.1 && r.0@ == n,
            None => !r.1 && r.0@ == StmtView::Switch(plan.view_switch()),
        },
{
    let ghost pv = plan.view_switch();
    let SwitchStatementPlan { kind, cases, default, postlude } = plan;
    match kind {
        SwitchKind::Value { subject } => {
            assert(pv.kind == SwitchKindView::Value { subject: subject@ });
            let (subject, renamed) = rename_one(subject, temp, source);
            let plan = SwitchStatementPlan { kind: SwitchKind::Value { subject }, cases, default, postlude };
            assert(plan.view_switch() == SwitchView { kind: SwitchKindView::Value { subject: subject@ }, ..pv });
            let r = LoweredStatement::Switch(plan);
            assert(r@ == StmtView::Switch(plan.view_switch()));
            (r, renamed)
        },
        SwitchKind::Type { subject, binding } => {
            assert(pv.kind == SwitchKindView::Type { subject: subject@, binding: crate::model::opt_text(binding) });
            let (subject, renamed) = rename_one(subject, temp, source);
            let plan = SwitchStatementPlan { kind: SwitchKind::Type { subject, binding }, cases, default, postlude };
            assert(plan.view_switch() == SwitchView {
                kind: SwitchKindView::Type { subject: subject@, binding: crate::model::opt_text(binding) },
                ..pv
            });
            let r = LoweredStatement::Switch(plan);
            assert(r@ == StmtView::Switch(plan.view_switch()));
            (r, renamed)
        },
        SwitchKind::Conditional => {
            let plan = SwitchStatementPlan { kind: SwitchKind::Conditional, cases, default, postlude };
            assert(plan.view_switch() == pv);
            (LoweredStatement::Switch(plan), false)
        },
    }
}

fn define_renamed(d: Definition, temp: &str, source: &str) -> (r: (LoweredStatement, bool))
    ensures
        match define_replaced(d@, temp@, source@) {
            Some(n) => r.1 && r.0@ == n,
            None => !r.1 && r.0@ == StmtView::Define(d@),
        },
{
    let ghost dv = d@;
    let Definition { names, value } = d;
    if crate::cleanup::contains_text(&names, source) {
        let d = Definition { names, value };
        assert(d@ == dv);
        return (LoweredStatement::Define(d), false);
    }
    let (value, renamed) = rename_one(value, temp, source);
    let d = Definition { names, value };
    assert(d@ == DefView { names: dv.names, value: value@ });
    let r = LoweredStatement::Define(d);
    assert(r@ == StmtView::Define(d@));
    (r, renamed)
}

fn if_renamed(plan: IfPlan, temp: &str, source: &str) -> (r: (LoweredStatement, bool))
    ensures
        match replace_only_read_spec(StmtView::If(plan@), temp@, source@) {
            Some(n) => r.1 && r.0@ == n,
            None => !r.1 && r.0@ == StmtView::If(plan@),
        },
{
    let ghost pv = plan@;
    if plan.condition_setup.len() != 0 || plan.initializer.is_some() {
        let r = LoweredStatement::If(plan);
        assert(r@ == StmtView::If(pv));
        return (r, false);
    }
    let IfPlan { condition_setup, initializer, condition, then_body, else_arm } = plan;
    let (condition, renamed) = rename_one(condition, temp, source);
    let plan = IfPlan { condition_setup, initializer, condition, then_body, else_arm };
    assert(plan@ == IfView { condition: condition@, ..pv });
    let r = LoweredStatement::If(plan);
    assert(r@ == StmtView::If(plan@));
    (r, renamed)
}

fn assign_renamed(form: AssignForm, temp: &str, source: &str) -> (r: (LoweredStatement, bool))
    ensures
        match assign_replaced(form.view_assign(), temp@, source@) {
            Some(n) => r.1 && r.0@ == n,
            None => !r.1 && r.0@ == StmtView::Assign(form.view_assign()),
        },
{
    let ghost fv = form.view_assign();
    match form {
        AssignForm::Simple { target_capture, target, value } => {
            assert(fv == AssignView::Simple { target_capture: stmt_list_view(&target_capture), target: target@, value: value@ });
            simple_renamed(target_capture, target, value, temp, source)
        },
        AssignForm::Compound { target_capture, target, kind } => {
            assert(fv == AssignView::Compound {
                target_capture: stmt_list_view(&target_capture),
                target: target@,
                kind: kind.view_compound(),
            });
            match kind {
                CompoundKind::OpAssign { op_text, rhs, pinned_left } => {
                    assert(kind.view_compound() == CompoundView::OpAssign { op_text: op_text@, rhs: (*rhs)@, pinned_left: opt_expr(pinned_left) });
                    compound_renamed(target_capture, target, op_text, *rhs, pinned_left, temp, source)
                },
                other => {
                    let form = AssignForm::Compound { target_capture, target, kind: other };
                    assert(form.view_assign() == fv);
                    (LoweredStatement::Assign(form), false)
                },
            }
        },
    }
}

/// The statement with its one read of `temp` reading `source`, and whether
/// the rename was made; the statement as it was where not.
pub fn replaced_only_read(statement: LoweredStatement, temp: &str, source: &str) -> (r: (LoweredStatement, bool))
    ensures
        match replace_only_read_spec(statement@, temp@, source@) {
            Some(n) => r.1 && r.0@ == n,
            None => !r.1 && r.0@ == statement@,
        },
    decreases statement,
{
    let ghost sv = statement@;
    match statement {
        LoweredStatement::Directed { directive, inner } => {
            let ghost iv = (*inner)@;
            assert(sv == StmtView::Directed { directive: directive@, inner: Box::new(iv) });
            let (inner, renamed) = replaced_only_read(*inner, temp, source);
            let r = LoweredStatement::Directed { directive, inner: Box::new(inner) };
            assert(r@ == StmtView::Directed { directive: directive@, inner: Box::new(inner@) });
            (r, renamed)
        },
        LoweredStatement::Define(d) => {
            assert(sv == StmtView::Define(d@));
            define_renamed(d, temp, source)
        },
        LoweredStatement::Assign(form) => {
            assert(sv == StmtView::Assign(form.view_assign()));
            assign_renamed(form, temp, source)
        },
        LoweredStatement::Return(values) => {
            assert(sv == StmtView::Return(expr_list_view(&values)));
            let mut values = values;
            let renamed = rename_in(&mut values, None, temp, source);
            let r = LoweredStatement::Return(values);
            assert(r@ == StmtView::Return(expr_list_view(&values)));
            (r, renamed)
        },
        LoweredStatement::ExpressionStatement { expression, diverges } => {
            assert(sv == StmtView::ExpressionStatement { expression: expression@, diverges });
            let (expression, renamed) = rename_one(expression, temp, source);
            let r = LoweredStatement::ExpressionStatement { expression, diverges };
            assert(r@ == StmtView::ExpressionStatement { expression: expression@, diverges });
            (r, renamed)
        },
        LoweredStatement::If(plan) => {
            assert(sv == StmtView::If(plan@));
            if_renamed(plan, temp, source)
        },
        LoweredStatement::Switch(plan) => {
            assert(sv == StmtView::Switch(plan.view_switch()));
            switch_renamed(plan, temp, source)
        },
        LoweredStatement::Select(plan) => {
            assert(sv == StmtView::Select(plan.view_select()));
            select_renamed(plan, temp, source)
        },
        other => (other, false),
    }
}

/// Makes the one read of `temp` in the statement read `source`, where the
/// statement's expressions can take the rename safely. Whether it did.
pub fn replace_only_read(statement: &mut LoweredStatement, temp: &str, source: &str) -> (renamed: bool)
    ensures
        match replace_only_read_spec(old(statement)@, temp@, source@) {
            Some(n) => renamed && final(statement)@ == n,
            None => !renamed && final(statement)@ == old(statement)@,
        },
{
    let mut taken = LoweredStatement::UnreachablePanic;
    std::mem::swap(statement, &mut taken);
    let (replaced, renamed) = replaced_only_read(taken, temp, source);
    *statement = replaced;
    renamed
}

} // verus!

verus! {

// ---------------------------------------------------------------------------
// The pass
// ---------------------------------------------------------------------------

/// The list from `index` on with each `temp := source` whose temporary is
/// read once dropped, where the statement after it can read `source` in its
/// place.
pub open spec fn inline_name_aliases_from(list: Seq<StmtView>, index: int, uses: NameUses) -> Seq<StmtView>
    decreases list.len() - index,
{
    if index < 0 || index + 1 >= list.len() {
        list
    } else {
        match alias_define_of(list[index]) {
            Some((temp, source)) => if read_once(uses, temp) {
                match replace_only_read_spec(list[index + 1], temp, source) {
                    Some(next) => inline_name_aliases_from(list.update(index + 1, next).remove(index), index, uses),
                    None => inline_name_aliases_from(list, index + 1, uses),
                }
            } else {
                inline_name_aliases_from(list, index + 1, uses)
            },
            None => inline_name_aliases_from(list, index + 1, uses),
        }
    }
}

/// Inlines, in one statement list, the temporaries that only copy a name.
pub struct NameAliases {
    pub uses: NameUses,
}

impl crate::lists::ListRewrite for NameAliases {
    open spec fn rewritten(&self, statements: Seq<StmtView>) -> Seq<StmtView> {
        inline_name_aliases_from(statements, 0, self.uses)
    }

    fn rewrite(&self, statements: Vec<LoweredStatement>) -> (r: Vec<LoweredStatement>) {
        let ghost target = inline_name_aliases_from(stmt_list_view(&statements), 0, self.uses);
        let mut list = statements;
        let mut index: usize = 0;
        while list.len() > 1 && index < list.len() - 1
            invariant
                target == inline_name_aliases_from(stmt_list_view(&list), index as int, self.uses),
            decreases list@.len() - index,
        {
            let ghost lv = stmt_list_view(&list);
            assert(lv[index as int] == list@[index as int]@);
            assert(lv[index + 1] == list@[index + 1]@);
            let alias = alias_define(&list[index]);
            let mut dropped = false;
            match alias {
                Some((temp, source)) => {
                    if self.uses.reads(temp.as_str()) == 1 && self.uses.bindings(temp.as_str()) == 1
                        && !self.uses.writes_contains(temp.as_str()) {
                        let mut next = LoweredStatement::UnreachablePanic;
                        list.set_and_swap(index + 1, &mut next);
                        let (next, renamed) = replaced_only_read(next, temp.as_str(), source.as_str());
                        let ghost new_next = next@;
                        let mut next = next;
                        list.set_and_swap(index + 1, &mut next);
                        if renamed {
                            assert(stmt_list_view(&list) =~= lv.update(index + 1, new_next));
                            list.remove(index);
                            assert(stmt_list_view(&list) =~= lv.update(index + 1, new_next).remove(index as int));
                            dropped = true;
                        } else {
                            assert(stmt_list_view(&list) =~= lv);
                        }
                    }
                },
                None => {},
            }
            if !dropped {
                index = index + 1;
            }
        }
        list
    }
}

/// Drops, everywhere in the body, each `temp := source` whose temporary is
/// read once, bound once and never written through, where the statement
/// right after it can read `source` in its place.
pub fn inline_name_aliases(statements: &mut Vec<LoweredStatement>)
    ensures
        exists|uses: NameUses| #[trigger] uses.describes(stmt_list_view(old(statements)))
            && stmt_list_view(final(statements)) == crate::lists::tree_rewritten(
            NameAliases { uses },
            stmt_list_view(old(statements)),
        ),
{
    let uses = NameUses::of(statements);
    let ghost described = uses;
    let pass = NameAliases { uses };
    crate::lists::for_each_statements_mut(statements, &pass);
    assert(described.describes(stmt_list_view(old(statements))));
}

} // verus!
