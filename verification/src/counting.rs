//! How many statements a body holds, nested ones included, and what the
//! rewrites over every list do to that number.

use crate::lists::{
    all_nested_rewritten, arm_tree, assign_tree, else_tree, if_tree, nested_rewritten, select_tree,
    switch_tree, tree_map, value_tree,
};
use crate::model::{
    ArmView, AssignView, CaseView, CompoundView, ElseView, IfView, SelectView, StmtView, SwitchView,
    ValueView,
};
use crate::walk::{
    arms_preorder, assign_preorder, cases_preorder, else_preorder, if_preorder, nested_preorder,
    select_preorder, stmts_preorder, switch_preorder,
};
use vstd::prelude::*;

verus! {

/// How many statements the list holds, nested ones included.
pub open spec fn count(ss: Seq<StmtView>) -> nat {
    stmts_preorder(ss).len()
}

/// How many statements are nested in the statement.
pub open spec fn nested_count(s: StmtView) -> nat {
    nested_preorder(s).len()
}

/// The rewrite never makes a list hold more statements.
pub open spec fn shrinks(f: spec_fn(Seq<StmtView>) -> Seq<StmtView>) -> bool {
    forall|list: Seq<StmtView>| #[trigger] count(f(list)) <= count(list)
}

pub proof fn lemma_preorder_push(a: Seq<StmtView>, s: StmtView)
    ensures
        stmts_preorder(a.push(s)) == stmts_preorder(a) + seq![s] + nested_preorder(s),
{
    assert(a.push(s).drop_last() =~= a);
    assert(a.push(s).last() == s);
}

pub proof fn lemma_count_push(a: Seq<StmtView>, s: StmtView)
    ensures
        count(a.push(s)) == count(a) + 1 + nested_count(s),
{
    lemma_preorder_push(a, s);
}

/// Two lists of the same length whose statements each hold no more nested
/// statements than the other's: the first holds no more in all.
pub proof fn lemma_count_pointwise(tt: Seq<StmtView>, ss: Seq<StmtView>)
    requires
        tt.len() == ss.len(),
        forall|i: int| 0 <= i < ss.len() ==> nested_count(#[trigger] tt[i]) <= nested_count(ss[i]),
    ensures
        count(tt) <= count(ss),
    decreases ss.len(),
{
    if ss.len() > 0 {
        let t0 = tt.drop_last();
        let s0 = ss.drop_last();
        assert forall|i: int| 0 <= i < s0.len() implies nested_count(#[trigger] t0[i]) <= nested_count(s0[i]) by {
            assert(t0[i] == tt[i]);
            assert(s0[i] == ss[i]);
        }
        lemma_count_pointwise(t0, s0);
        assert(t0.push(tt.last()) =~= tt);
        assert(s0.push(ss.last()) =~= ss);
        lemma_count_push(t0, tt.last());
        lemma_count_push(s0, ss.last());
    }
}

/// As [`lemma_count_pointwise`], with one statement holding strictly fewer.
pub proof fn lemma_count_pointwise_strict(tt: Seq<StmtView>, ss: Seq<StmtView>, k: int)
    requires
        tt.len() == ss.len(),
        0 <= k < ss.len(),
        nested_count(tt[k]) < nested_count(ss[k]),
        forall|i: int| 0 <= i < ss.len() ==> nested_count(#[trigger] tt[i]) <= nested_count(ss[i]),
    ensures
        count(tt) < count(ss),
    decreases ss.len(),
{
    let t0 = tt.drop_last();
    let s0 = ss.drop_last();
    assert forall|i: int| 0 <= i < s0.len() implies nested_count(#[trigger] t0[i]) <= nested_count(s0[i]) by {
        assert(t0[i] == tt[i]);
        assert(s0[i] == ss[i]);
    }
    assert(t0.push(tt.last()) =~= tt);
    assert(s0.push(ss.last()) =~= ss);
    lemma_count_push(t0, tt.last());
    lemma_count_push(s0, ss.last());
    if k < ss.len() - 1 {
        assert(t0[k] == tt[k]);
        assert(s0[k] == ss[k]);
        lemma_count_pointwise_strict(t0, s0, k);
    } else {
        lemma_count_pointwise(t0, s0);
    }
}

pub proof fn lemma_arms_pointwise(tt: Seq<ArmView>, ss: Seq<ArmView>)
    requires
        tt.len() == ss.len(),
        forall|i: int| 0 <= i < ss.len() ==> count(crate::bodies::arm_body(#[trigger] tt[i])) <= count(
            crate::bodies::arm_body(ss[i]),
        ),
    ensures
        arms_preorder(tt).len() <= arms_preorder(ss).len(),
    decreases ss.len(),
{
    if ss.len() > 0 {
        let t0 = tt.drop_last();
        let s0 = ss.drop_last();
        assert forall|i: int| 0 <= i < s0.len() implies count(crate::bodies::arm_body(#[trigger] t0[i])) <= count(
            crate::bodies::arm_body(s0[i]),
        ) by {
            assert(t0[i] == tt[i]);
            assert(s0[i] == ss[i]);
        }
        lemma_arms_pointwise(t0, s0);
    }
}

pub proof fn lemma_cases_pointwise(tt: Seq<CaseView>, ss: Seq<CaseView>)
    requires
        tt.len() == ss.len(),
        forall|i: int| 0 <= i < ss.len() ==> count((#[trigger] tt[i]).body) <= count(ss[i].body),
    ensures
        cases_preorder(tt).len() <= cases_preorder(ss).len(),
    decreases ss.len(),
{
    if ss.len() > 0 {
        let t0 = tt.drop_last();
        let s0 = ss.drop_last();
        assert forall|i: int| 0 <= i < s0.len() implies count((#[trigger] t0[i]).body) <= count(s0[i].body) by {
            assert(t0[i] == tt[i]);
            assert(s0[i] == ss[i]);
        }
        lemma_cases_pointwise(t0, s0);
    }
}

} // verus!

verus! {

pub proof fn lemma_tree_map_count(f: spec_fn(Seq<StmtView>) -> Seq<StmtView>, ss: Seq<StmtView>, d: nat)
    requires
        shrinks(f),
    ensures
        count(tree_map(f, ss, d)) <= count(ss),
    decreases d, 1nat, ss,
{
    if d > 0 {
        lemma_all_nested_count(f, f(ss), (d - 1) as nat);
        assert(count(f(ss)) <= count(ss));
    }
}

pub proof fn lemma_all_nested_count(f: spec_fn(Seq<StmtView>) -> Seq<StmtView>, ss: Seq<StmtView>, d: nat)
    requires
        shrinks(f),
    ensures
        count(all_nested_rewritten(f, ss, d)) <= count(ss),
    decreases d, 3nat, ss,
{
    let tt = all_nested_rewritten(f, ss, d);
    assert forall|i: int| 0 <= i < ss.len() implies nested_count(#[trigger] tt[i]) <= nested_count(ss[i]) by {
        lemma_nested_count(f, ss[i], d);
    }
    lemma_count_pointwise(tt, ss);
}

pub proof fn lemma_nested_count(f: spec_fn(Seq<StmtView>) -> Seq<StmtView>, s: StmtView, d: nat)
    requires
        shrinks(f),
    ensures
        nested_count(nested_rewritten(f, s, d)) <= nested_count(s),
    decreases d, 2nat, s,
{
    match s {
        StmtView::If(plan) => lemma_if_count(f, plan, d),
        StmtView::Loop(plan) => {
            lemma_tree_map_count(f, plan.prologue, d);
            lemma_tree_map_count(f, plan.body, d);
        },
        StmtView::Block(body) => lemma_tree_map_count(f, body, d),
        StmtView::Body(body) => lemma_tree_map_count(f, body, d),
        StmtView::WhileLet(body) => lemma_tree_map_count(f, body, d),
        StmtView::Assign(form) => lemma_assign_count(f, form, d),
        StmtView::Select(plan) => lemma_select_count(f, plan, d),
        StmtView::Switch(plan) => lemma_switch_count(f, plan, d),
        StmtView::Directed { inner, .. } => lemma_nested_count(f, *inner, d),
        _ => {},
    }
}

pub proof fn lemma_if_count(f: spec_fn(Seq<StmtView>) -> Seq<StmtView>, plan: IfView, d: nat)
    requires
        shrinks(f),
    ensures
        if_preorder(if_tree(f, plan, d)).len() <= if_preorder(plan).len(),
    decreases d, 2nat, plan,
{
    lemma_tree_map_count(f, plan.condition_setup, d);
    lemma_tree_map_count(f, plan.then_body, d);
    lemma_else_count(f, plan.else_arm, d);
}

pub proof fn lemma_else_count(f: spec_fn(Seq<StmtView>) -> Seq<StmtView>, arm: ElseView, d: nat)
    requires
        shrinks(f),
    ensures
        else_preorder(else_tree(f, arm, d)).len() <= else_preorder(arm).len(),
    decreases d, 2nat, arm,
{
    match arm {
        ElseView::NoElse => {},
        ElseView::ElseIf(inner) => lemma_if_count(f, *inner, d),
        ElseView::Else { body, .. } => lemma_tree_map_count(f, body, d),
    }
}

pub proof fn lemma_value_count(f: spec_fn(Seq<StmtView>) -> Seq<StmtView>, v: ValueView, d: nat)
    requires
        shrinks(f),
    ensures
        count(value_tree(f, v, d).setup) <= count(v.setup),
    decreases d, 2nat, v,
{
    lemma_tree_map_count(f, v.setup, d);
}

pub proof fn lemma_assign_count(f: spec_fn(Seq<StmtView>) -> Seq<StmtView>, form: AssignView, d: nat)
    requires
        shrinks(f),
    ensures
        assign_preorder(assign_tree(f, form, d)).len() <= assign_preorder(form).len(),
    decreases d, 2nat, form,
{
    match form {
        AssignView::Compound { target_capture, kind, .. } => {
            lemma_tree_map_count(f, target_capture, d);
            match kind {
                CompoundView::OpAssign { rhs, .. } => lemma_value_count(f, rhs, d),
                _ => {},
            }
        },
        AssignView::Simple { target_capture, value, .. } => {
            lemma_tree_map_count(f, target_capture, d);
            lemma_value_count(f, value, d);
        },
    }
}

pub proof fn lemma_arm_count(f: spec_fn(Seq<StmtView>) -> Seq<StmtView>, arm: ArmView, d: nat)
    requires
        shrinks(f),
    ensures
        count(crate::bodies::arm_body(arm_tree(f, arm, d))) <= count(crate::bodies::arm_body(arm)),
    decreases d, 2nat, arm,
{
    match arm {
        ArmView::Receive { body, .. } => lemma_tree_map_count(f, body, d),
        ArmView::Send { body, .. } => lemma_tree_map_count(f, body, d),
        ArmView::Default { body } => lemma_tree_map_count(f, body, d),
    }
}

pub proof fn lemma_select_count(f: spec_fn(Seq<StmtView>) -> Seq<StmtView>, plan: SelectView, d: nat)
    requires
        shrinks(f),
    ensures
        select_preorder(select_tree(f, plan, d)).len() <= select_preorder(plan).len(),
    decreases d, 2nat, plan,
{
    lemma_tree_map_count(f, plan.setup, d);
    lemma_tree_map_count(f, plan.postlude, d);
    let arms = select_tree(f, plan, d).arms;
    assert forall|i: int| 0 <= i < plan.arms.len() implies count(crate::bodies::arm_body(#[trigger] arms[i])) <= count(
        crate::bodies::arm_body(plan.arms[i]),
    ) by {
        assert(decreases_to!(plan => plan.arms));
        assert(decreases_to!(plan.arms => plan.arms[i]));
        lemma_arm_count(f, plan.arms[i], d);
    }
    lemma_arms_pointwise(arms, plan.arms);
}

pub proof fn lemma_switch_count(f: spec_fn(Seq<StmtView>) -> Seq<StmtView>, plan: SwitchView, d: nat)
    requires
        shrinks(f),
    ensures
        switch_preorder(switch_tree(f, plan, d)).len() <= switch_preorder(plan).len(),
    decreases d, 2nat, plan,
{
    lemma_tree_map_count(f, plan.postlude, d);
    match plan.default {
        Some(body) => lemma_tree_map_count(f, body, d),
        None => {},
    }
    let cases = switch_tree(f, plan, d).cases;
    assert forall|i: int| 0 <= i < plan.cases.len() implies count((#[trigger] cases[i]).body) <= count(plan.cases[i].body) by {
        assert(decreases_to!(plan => plan.cases));
        assert(decreases_to!(plan.cases => plan.cases[i]));
        assert(decreases_to!(plan.cases[i] => plan.cases[i].body));
        lemma_tree_map_count(f, plan.cases[i].body, d);
    }
    lemma_cases_pointwise(cases, plan.cases);
}

} // verus!

verus! {

pub proof fn lemma_retained_count(name: Seq<char>, list: Seq<StmtView>)
    ensures
        count(crate::temps::retained(name, list)) <= count(list),
        (exists|i: int| 0 <= i < list.len() && !crate::temps::keeps(name, #[trigger] list[i])) ==> count(
            crate::temps::retained(name, list),
        ) < count(list),
        (forall|i: int| 0 <= i < list.len() ==> crate::temps::keeps(name, #[trigger] list[i])) ==> crate::temps::retained(
            name,
            list,
        ) == list,
    decreases list.len(),
{
    if list.len() > 0 {
        let prefix = list.drop_last();
        lemma_retained_count(name, prefix);
        let kept = crate::temps::retained(name, prefix);
        assert(prefix.push(list.last()) =~= list);
        lemma_count_push(prefix, list.last());
        if crate::temps::keeps(name, list.last()) {
            assert(crate::temps::retained(name, list) == kept + seq![list.last()]);
            assert(kept + seq![list.last()] =~= kept.push(list.last()));
            lemma_count_push(kept, list.last());
        } else {
            assert(crate::temps::retained(name, list) =~= kept);
        }
        if exists|i: int| 0 <= i < list.len() && !crate::temps::keeps(name, #[trigger] list[i]) {
            let i = choose|i: int| 0 <= i < list.len() && !crate::temps::keeps(name, #[trigger] list[i]);
            if i < list.len() - 1 {
                assert(prefix[i] == list[i]);
            }
        }
        if forall|i: int| 0 <= i < list.len() ==> crate::temps::keeps(name, #[trigger] list[i]) {
            assert forall|i: int| 0 <= i < prefix.len() implies crate::temps::keeps(name, #[trigger] prefix[i]) by {
                assert(prefix[i] == list[i]);
            }
            assert(crate::temps::keeps(name, list[list.len() - 1]));
        }
    }
}

pub proof fn lemma_retain_shrinks(name: Seq<char>)
    ensures
        shrinks(crate::temps::retain_fn(name)),
{
    assert forall|list: Seq<StmtView>| #[trigger] count(crate::temps::retain_fn(name)(list)) <= count(list) by {
        lemma_retained_count(name, list);
    }
}

pub proof fn lemma_drop_empty_else_if_count(plan: IfView)
    ensures
        if_preorder(crate::cleanup::drop_empty_else_if(plan)).len() <= if_preorder(plan).len(),
    decreases plan,
{
    match plan.else_arm {
        ElseView::ElseIf(inner) => lemma_drop_empty_else_if_count(*inner),
        _ => {},
    }
}

pub proof fn lemma_drop_empty_else_count(s: StmtView)
    ensures
        nested_count(crate::cleanup::drop_empty_else_spec(s)) <= nested_count(s),
    decreases s,
{
    match s {
        StmtView::Directed { inner, .. } => lemma_drop_empty_else_count(*inner),
        StmtView::If(plan) => lemma_drop_empty_else_if_count(plan),
        _ => {},
    }
}

pub proof fn lemma_drop_empty_else_shrinks()
    ensures
        shrinks(crate::lists::pass_fn(crate::cleanup::EachStatement { which: crate::cleanup::StatementRewrite::DropEmptyElse })),
{
    let pass = crate::cleanup::EachStatement { which: crate::cleanup::StatementRewrite::DropEmptyElse };
    assert forall|list: Seq<StmtView>| #[trigger] count(crate::lists::pass_fn(pass)(list)) <= count(list) by {
        let tt = crate::lists::pass_fn(pass)(list);
        assert forall|i: int| 0 <= i < list.len() implies nested_count(#[trigger] tt[i]) <= nested_count(list[i]) by {
            lemma_drop_empty_else_count(list[i]);
        }
        lemma_count_pointwise(tt, list);
    }
}

} // verus!

verus! {

/// One of the statements defines or discards `name`.
pub open spec fn hits(name: Seq<char>, xs: Seq<StmtView>) -> bool {
    exists|j: int| 0 <= j < xs.len() && !crate::temps::keeps(name, #[trigger] xs[j])
}

pub proof fn lemma_hits_concat(name: Seq<char>, a: Seq<StmtView>, b: Seq<StmtView>)
    requires
        hits(name, a + b),
    ensures
        hits(name, a) || hits(name, b),
{
    let j = choose|j: int| 0 <= j < (a + b).len() && !crate::temps::keeps(name, #[trigger] (a + b)[j]);
    if j < a.len() {
        assert((a + b)[j] == a[j]);
    } else {
        assert((a + b)[j] == b[j - a.len()]);
    }
}

/// A statement that defines or discards `name` somewhere in the list is one
/// of the list's own statements or nested in one of them.
pub proof fn lemma_preorder_hit(name: Seq<char>, ss: Seq<StmtView>)
    requires
        hits(name, stmts_preorder(ss)),
    ensures
        exists|i: int|
            0 <= i < ss.len() && (!crate::temps::keeps(name, #[trigger] ss[i]) || hits(name, nested_preorder(ss[i]))),
    decreases ss.len(),
{
    if ss.len() == 0 {
        assert(stmts_preorder(ss).len() == 0);
    } else {
        let prefix = ss.drop_last();
        let last = ss.last();
        assert(stmts_preorder(ss) == stmts_preorder(prefix) + seq![last] + nested_preorder(last));
        lemma_hits_concat(name, stmts_preorder(prefix) + seq![last], nested_preorder(last));
        if hits(name, stmts_preorder(prefix) + seq![last]) {
            lemma_hits_concat(name, stmts_preorder(prefix), seq![last]);
            if hits(name, stmts_preorder(prefix)) {
                lemma_preorder_hit(name, prefix);
                let i = choose|i: int|
                    0 <= i < prefix.len() && (!crate::temps::keeps(name, #[trigger] prefix[i]) || hits(
                        name,
                        nested_preorder(prefix[i]),
                    ));
                assert(prefix[i] == ss[i]);
            } else {
                assert(!crate::temps::keeps(name, seq![last][0]));
                assert(ss[ss.len() - 1] == last);
            }
        } else {
            assert(ss[ss.len() - 1] == last);
        }
    }
}

/// Each statement of a list, with what is nested in it, is part of the
/// list's count.
pub proof fn lemma_count_bounds_each(ss: Seq<StmtView>, i: int)
    requires
        0 <= i < ss.len(),
    ensures
        1 + nested_count(ss[i]) <= count(ss),
    decreases ss.len(),
{
    let prefix = ss.drop_last();
    assert(prefix.push(ss.last()) =~= ss);
    lemma_count_push(prefix, ss.last());
    if i < ss.len() - 1 {
        assert(prefix[i] == ss[i]);
        lemma_count_bounds_each(prefix, i);
    }
}

pub proof fn lemma_arms_hit(name: Seq<char>, arms: Seq<ArmView>)
    requires
        hits(name, arms_preorder(arms)),
    ensures
        exists|k: int| 0 <= k < arms.len() && hits(name, stmts_preorder(crate::bodies::arm_body(#[trigger] arms[k]))),
        forall|k: int| 0 <= k < arms.len() ==> count(crate::bodies::arm_body(#[trigger] arms[k])) <= arms_preorder(arms).len(),
    decreases arms.len(),
{
    if arms.len() == 0 {
    } else {
        let prefix = arms.drop_last();
        let body = crate::bodies::arm_body(arms.last());
        assert(arms_preorder(arms) == arms_preorder(prefix) + stmts_preorder(body));
        lemma_hits_concat(name, arms_preorder(prefix), stmts_preorder(body));
        lemma_arms_bound(arms);
        if hits(name, arms_preorder(prefix)) {
            lemma_arms_hit(name, prefix);
            let k = choose|k: int| 0 <= k < prefix.len() && hits(name, stmts_preorder(crate::bodies::arm_body(#[trigger] prefix[k])));
            assert(prefix[k] == arms[k]);
        } else {
            assert(arms[arms.len() - 1] == arms.last());
        }
    }
}

pub proof fn lemma_arms_bound(arms: Seq<ArmView>)
    ensures
        forall|k: int| 0 <= k < arms.len() ==> count(crate::bodies::arm_body(#[trigger] arms[k])) <= arms_preorder(arms).len(),
    decreases arms.len(),
{
    if arms.len() > 0 {
        let prefix = arms.drop_last();
        lemma_arms_bound(prefix);
        assert forall|k: int| 0 <= k < arms.len() implies count(crate::bodies::arm_body(#[trigger] arms[k]))
            <= arms_preorder(arms).len() by {
            if k < arms.len() - 1 {
                assert(prefix[k] == arms[k]);
            }
        }
    }
}

pub proof fn lemma_arms_pointwise_strict(tt: Seq<ArmView>, ss: Seq<ArmView>, k: int)
    requires
        tt.len() == ss.len(),
        0 <= k < ss.len(),
        count(crate::bodies::arm_body(tt[k])) < count(crate::bodies::arm_body(ss[k])),
        forall|i: int| 0 <= i < ss.len() ==> count(crate::bodies::arm_body(#[trigger] tt[i])) <= count(
            crate::bodies::arm_body(ss[i]),
        ),
    ensures
        arms_preorder(tt).len() < arms_preorder(ss).len(),
    decreases ss.len(),
{
    let t0 = tt.drop_last();
    let s0 = ss.drop_last();
    assert forall|i: int| 0 <= i < s0.len() implies count(crate::bodies::arm_body(#[trigger] t0[i])) <= count(
        crate::bodies::arm_body(s0[i]),
    ) by {
        assert(t0[i] == tt[i]);
        assert(s0[i] == ss[i]);
    }
    if k < ss.len() - 1 {
        assert(t0[k] == tt[k]);
        assert(s0[k] == ss[k]);
        lemma_arms_pointwise_strict(t0, s0, k);
    } else {
        lemma_arms_pointwise(t0, s0);
    }
}

pub proof fn lemma_cases_hit(name: Seq<char>, cases: Seq<CaseView>)
    requires
        hits(name, cases_preorder(cases)),
    ensures
        exists|k: int| 0 <= k < cases.len() && hits(name, stmts_preorder((#[trigger] cases[k]).body)),
    decreases cases.len(),
{
    if cases.len() > 0 {
        let prefix = cases.drop_last();
        assert(cases_preorder(cases) == cases_preorder(prefix) + stmts_preorder(cases.last().body));
        lemma_hits_concat(name, cases_preorder(prefix), stmts_preorder(cases.last().body));
        if hits(name, cases_preorder(prefix)) {
            lemma_cases_hit(name, prefix);
            let k = choose|k: int| 0 <= k < prefix.len() && hits(name, stmts_preorder((#[trigger] prefix[k]).body));
            assert(prefix[k] == cases[k]);
        } else {
            assert(cases[cases.len() - 1] == cases.last());
        }
    }
}

pub proof fn lemma_cases_bound(cases: Seq<CaseView>)
    ensures
        forall|k: int| 0 <= k < cases.len() ==> count((#[trigger] cases[k]).body) <= cases_preorder(cases).len(),
    decreases cases.len(),
{
    if cases.len() > 0 {
        let prefix = cases.drop_last();
        lemma_cases_bound(prefix);
        assert forall|k: int| 0 <= k < cases.len() implies count((#[trigger] cases[k]).body) <= cases_preorder(cases).len() by {
            if k < cases.len() - 1 {
                assert(prefix[k] == cases[k]);
            }
        }
    }
}

pub proof fn lemma_cases_pointwise_strict(tt: Seq<CaseView>, ss: Seq<CaseView>, k: int)
    requires
        tt.len() == ss.len(),
        0 <= k < ss.len(),
        count(tt[k].body) < count(ss[k].body),
        forall|i: int| 0 <= i < ss.len() ==> count((#[trigger] tt[i]).body) <= count(ss[i].body),
    ensures
        cases_preorder(tt).len() < cases_preorder(ss).len(),
    decreases ss.len(),
{
    let t0 = tt.drop_last();
    let s0 = ss.drop_last();
    assert forall|i: int| 0 <= i < s0.len() implies count((#[trigger] t0[i]).body) <= count(s0[i].body) by {
        assert(t0[i] == tt[i]);
        assert(s0[i] == ss[i]);
    }
    if k < ss.len() - 1 {
        assert(t0[k] == tt[k]);
        assert(s0[k] == ss[k]);
        lemma_cases_pointwise_strict(t0, s0, k);
    } else {
        lemma_cases_pointwise(t0, s0);
    }
}

} // verus!

verus! {

/// Dropping the statements that define or discard `name` from every list
/// drops at least one, where one of the list's statements, nested ones
/// included, does and the lists nest no deeper than `d`.
pub proof fn lemma_tree_map_strict(name: Seq<char>, ss: Seq<StmtView>, d: nat)
    requires
        hits(name, stmts_preorder(ss)),
        d > count(ss),
    ensures
        count(tree_map(crate::temps::retain_fn(name), ss, d)) < count(ss),
    decreases d, 1nat, ss,
{
    let f = crate::temps::retain_fn(name);
    lemma_retain_shrinks(name);
    lemma_retained_count(name, ss);
    let r = crate::temps::retained(name, ss);
    assert(f(ss) == r);
    if exists|i: int| 0 <= i < ss.len() && !crate::temps::keeps(name, #[trigger] ss[i]) {
        lemma_all_nested_count(f, r, (d - 1) as nat);
    } else {
        assert(r == ss);
        lemma_preorder_hit(name, ss);
        let i = choose|i: int|
            0 <= i < ss.len() && (!crate::temps::keeps(name, #[trigger] ss[i]) || hits(name, nested_preorder(ss[i])));
        lemma_count_bounds_each(ss, i);
        let tt = all_nested_rewritten(f, ss, (d - 1) as nat);
        assert forall|j: int| 0 <= j < ss.len() implies nested_count(#[trigger] tt[j]) <= nested_count(ss[j]) by {
            lemma_nested_count(f, ss[j], (d - 1) as nat);
        }
        lemma_nested_strict(name, ss[i], (d - 1) as nat);
        lemma_count_pointwise_strict(tt, ss, i);
    }
}

pub proof fn lemma_nested_strict(name: Seq<char>, s: StmtView, d: nat)
    requires
        crate::temps::keeps(name, s),
        hits(name, nested_preorder(s)),
        d > nested_count(s),
    ensures
        nested_count(nested_rewritten(crate::temps::retain_fn(name), s, d)) < nested_count(s),
    decreases d, 2nat, s,
{
    let f = crate::temps::retain_fn(name);
    lemma_retain_shrinks(name);
    match s {
        StmtView::If(plan) => lemma_if_strict(name, plan, d),
        StmtView::Loop(plan) => {
            lemma_hits_concat(name, stmts_preorder(plan.prologue), stmts_preorder(plan.body));
            lemma_tree_map_count(f, plan.prologue, d);
            lemma_tree_map_count(f, plan.body, d);
            if hits(name, stmts_preorder(plan.prologue)) {
                lemma_tree_map_strict(name, plan.prologue, d);
            } else {
                lemma_tree_map_strict(name, plan.body, d);
            }
        },
        StmtView::Block(body) => lemma_tree_map_strict(name, body, d),
        StmtView::Body(body) => lemma_tree_map_strict(name, body, d),
        StmtView::WhileLet(body) => lemma_tree_map_strict(name, body, d),
        StmtView::Assign(form) => lemma_assign_strict(name, form, d),
        StmtView::Select(plan) => lemma_select_strict(name, plan, d),
        StmtView::Switch(plan) => lemma_switch_strict(name, plan, d),
        StmtView::Directed { directive, inner } => {
            assert(nested_preorder(s) == seq![*inner] + nested_preorder(*inner));
            assert(crate::temps::keeps(name, *inner));
            lemma_hits_concat(name, seq![*inner], nested_preorder(*inner));
            if hits(name, seq![*inner]) {
                assert(!crate::temps::keeps(name, seq![*inner][0]));
            }
            lemma_nested_strict(name, *inner, d);
        },
        _ => {
            assert(nested_preorder(s).len() == 0);
        },
    }
}

pub proof fn lemma_if_strict(name: Seq<char>, plan: IfView, d: nat)
    requires
        hits(name, if_preorder(plan)),
        d > if_preorder(plan).len(),
    ensures
        if_preorder(if_tree(crate::temps::retain_fn(name), plan, d)).len() < if_preorder(plan).len(),
    decreases d, 2nat, plan,
{
    let f = crate::temps::retain_fn(name);
    lemma_retain_shrinks(name);
    lemma_tree_map_count(f, plan.condition_setup, d);
    lemma_tree_map_count(f, plan.then_body, d);
    lemma_else_count(f, plan.else_arm, d);
    let a = stmts_preorder(plan.condition_setup);
    let b = stmts_preorder(plan.then_body);
    let c = else_preorder(plan.else_arm);
    lemma_hits_concat(name, a + b, c);
    if hits(name, a + b) {
        lemma_hits_concat(name, a, b);
        if hits(name, a) {
            lemma_tree_map_strict(name, plan.condition_setup, d);
        } else {
            lemma_tree_map_strict(name, plan.then_body, d);
        }
    } else {
        lemma_else_strict(name, plan.else_arm, d);
    }
}

pub proof fn lemma_else_strict(name: Seq<char>, arm: ElseView, d: nat)
    requires
        hits(name, else_preorder(arm)),
        d > else_preorder(arm).len(),
    ensures
        else_preorder(else_tree(crate::temps::retain_fn(name), arm, d)).len() < else_preorder(arm).len(),
    decreases d, 2nat, arm,
{
    match arm {
        ElseView::NoElse => {},
        ElseView::ElseIf(inner) => lemma_if_strict(name, *inner, d),
        ElseView::Else { body, .. } => lemma_tree_map_strict(name, body, d),
    }
}

pub proof fn lemma_assign_strict(name: Seq<char>, form: AssignView, d: nat)
    requires
        hits(name, assign_preorder(form)),
        d > assign_preorder(form).len(),
    ensures
        assign_preorder(assign_tree(crate::temps::retain_fn(name), form, d)).len() < assign_preorder(form).len(),
    decreases d, 2nat, form,
{
    let f = crate::temps::retain_fn(name);
    lemma_retain_shrinks(name);
    match form {
        AssignView::Compound { target_capture, kind, .. } => {
            lemma_tree_map_count(f, target_capture, d);
            match kind {
                CompoundView::OpAssign { rhs, .. } => {
                    lemma_value_count(f, rhs, d);
                    lemma_hits_concat(name, stmts_preorder(target_capture), stmts_preorder(rhs.setup));
                    if hits(name, stmts_preorder(target_capture)) {
                        lemma_tree_map_strict(name, target_capture, d);
                    } else {
                        lemma_tree_map_strict(name, rhs.setup, d);
                    }
                },
                _ => {
                    assert(assign_preorder(form) =~= stmts_preorder(target_capture));
                    lemma_tree_map_strict(name, target_capture, d);
                },
            }
        },
        AssignView::Simple { target_capture, value, .. } => {
            lemma_tree_map_count(f, target_capture, d);
            lemma_value_count(f, value, d);
            lemma_hits_concat(name, stmts_preorder(target_capture), stmts_preorder(value.setup));
            if hits(name, stmts_preorder(target_capture)) {
                lemma_tree_map_strict(name, target_capture, d);
            } else {
                lemma_tree_map_strict(name, value.setup, d);
            }
        },
    }
}

pub proof fn lemma_arm_strict(name: Seq<char>, arm: ArmView, d: nat)
    requires
        hits(name, stmts_preorder(crate::bodies::arm_body(arm))),
        d > count(crate::bodies::arm_body(arm)),
    ensures
        count(crate::bodies::arm_body(arm_tree(crate::temps::retain_fn(name), arm, d))) < count(crate::bodies::arm_body(arm)),
    decreases d, 2nat, arm,
{
    match arm {
        ArmView::Receive { body, .. } => lemma_tree_map_strict(name, body, d),
        ArmView::Send { body, .. } => lemma_tree_map_strict(name, body, d),
        ArmView::Default { body } => lemma_tree_map_strict(name, body, d),
    }
}

pub proof fn lemma_select_strict(name: Seq<char>, plan: SelectView, d: nat)
    requires
        hits(name, select_preorder(plan)),
        d > select_preorder(plan).len(),
    ensures
        select_preorder(select_tree(crate::temps::retain_fn(name), plan, d)).len() < select_preorder(plan).len(),
    decreases d, 2nat, plan,
{
    let f = crate::temps::retain_fn(name);
    lemma_retain_shrinks(name);
    lemma_tree_map_count(f, plan.setup, d);
    lemma_tree_map_count(f, plan.postlude, d);
    let arms = select_tree(f, plan, d).arms;
    assert forall|i: int| 0 <= i < plan.arms.len() implies count(crate::bodies::arm_body(#[trigger] arms[i])) <= count(
        crate::bodies::arm_body(plan.arms[i]),
    ) by {
        assert(decreases_to!(plan => plan.arms));
        assert(decreases_to!(plan.arms => plan.arms[i]));
        lemma_arm_count(f, plan.arms[i], d);
    }
    lemma_arms_pointwise(arms, plan.arms);
    let a = stmts_preorder(plan.setup);
    let b = arms_preorder(plan.arms);
    let c = stmts_preorder(plan.postlude);
    lemma_hits_concat(name, a + b, c);
    if hits(name, a + b) {
        lemma_hits_concat(name, a, b);
        if hits(name, a) {
            lemma_tree_map_strict(name, plan.setup, d);
        } else {
            lemma_arms_hit(name, plan.arms);
            let k = choose|k: int| 0 <= k < plan.arms.len() && hits(name, stmts_preorder(crate::bodies::arm_body(#[trigger] plan.arms[k])));
            assert(decreases_to!(plan => plan.arms));
            assert(decreases_to!(plan.arms => plan.arms[k]));
            lemma_arm_strict(name, plan.arms[k], d);
            lemma_arms_pointwise_strict(arms, plan.arms, k);
        }
    } else {
        lemma_tree_map_strict(name, plan.postlude, d);
    }
}

pub proof fn lemma_switch_strict(name: Seq<char>, plan: SwitchView, d: nat)
    requires
        hits(name, switch_preorder(plan)),
        d > switch_preorder(plan).len(),
    ensures
        switch_preorder(switch_tree(crate::temps::retain_fn(name), plan, d)).len() < switch_preorder(plan).len(),
    decreases d, 2nat, plan,
{
    let f = crate::temps::retain_fn(name);
    lemma_retain_shrinks(name);
    lemma_tree_map_count(f, plan.postlude, d);
    let defaults = match plan.default {
        Some(body) => stmts_preorder(body),
        None => Seq::empty(),
    };
    match plan.default {
        Some(body) => lemma_tree_map_count(f, body, d),
        None => {},
    }
    let cases = switch_tree(f, plan, d).cases;
    assert forall|i: int| 0 <= i < plan.cases.len() implies count((#[trigger] cases[i]).body) <= count(plan.cases[i].body) by {
        assert(decreases_to!(plan => plan.cases));
        assert(decreases_to!(plan.cases => plan.cases[i]));
        assert(decreases_to!(plan.cases[i] => plan.cases[i].body));
        lemma_tree_map_count(f, plan.cases[i].body, d);
    }
    lemma_cases_pointwise(cases, plan.cases);
    let a = cases_preorder(plan.cases);
    let c = stmts_preorder(plan.postlude);
    assert(switch_preorder(plan) == a + defaults + c);
    lemma_hits_concat(name, a + defaults, c);
    if hits(name, a + defaults) {
        lemma_hits_concat(name, a, defaults);
        if hits(name, a) {
            lemma_cases_hit(name, plan.cases);
            lemma_cases_bound(plan.cases);
            let k = choose|k: int| 0 <= k < plan.cases.len() && hits(name, stmts_preorder((#[trigger] plan.cases[k]).body));
            assert(decreases_to!(plan => plan.cases));
            assert(decreases_to!(plan.cases => plan.cases[k]));
            assert(decreases_to!(plan.cases[k] => plan.cases[k].body));
            lemma_tree_map_strict(name, plan.cases[k].body, d);
            lemma_cases_pointwise_strict(cases, plan.cases, k);
        } else {
            match plan.default {
                Some(body) => lemma_tree_map_strict(name, body, d),
                None => {},
            }
        }
    } else {
        lemma_tree_map_strict(name, plan.postlude, d);
    }
}

} // verus!

verus! {

pub proof fn lemma_first_unread_found(ss: Seq<StmtView>, visited: Seq<StmtView>)
    requires
        crate::temps::first_unread(ss, visited) is Some,
    ensures
        hits(crate::temps::first_unread(ss, visited).unwrap(), visited),
    decreases visited.len(),
{
    let name = crate::temps::first_unread(ss, visited).unwrap();
    let prefix = visited.drop_last();
    match crate::temps::first_unread(ss, prefix) {
        Some(n) => {
            lemma_first_unread_found(ss, prefix);
            let j = choose|j: int| 0 <= j < prefix.len() && !crate::temps::keeps(n, #[trigger] prefix[j]);
            assert(prefix[j] == visited[j]);
        },
        None => {
            let last = visited.last();
            assert(crate::temps::unread_define(ss, last) == Some(name));
            assert(!crate::temps::keeps(name, visited[visited.len() - 1]));
        },
    }
}

/// Each round that finds a temporary defined for nothing drops at least one
/// statement from the body.
pub proof fn law_each_round_shrinks(ss: Seq<StmtView>)
    requires
        count(ss) < crate::lists::depth_bound(),
        crate::temps::drop_round(ss) is Some,
    ensures
        count(crate::temps::drop_round(ss).unwrap()) < count(ss),
{
    let pre = stmts_preorder(ss);
    let name = crate::temps::first_unread(ss, pre).unwrap();
    lemma_first_unread_found(ss, pre);
    let d = crate::lists::depth_bound();
    lemma_tree_map_strict(name, ss, d);
    let kept = tree_map(crate::temps::retain_fn(name), ss, d);
    lemma_drop_empty_else_shrinks();
    lemma_tree_map_count(
        crate::lists::pass_fn(crate::cleanup::EachStatement { which: crate::cleanup::StatementRewrite::DropEmptyElse }),
        kept,
        d,
    );
}

pub proof fn lemma_rounds_reach_none(ss: Seq<StmtView>, rounds: nat)
    requires
        count(ss) < crate::lists::depth_bound(),
        count(ss) < rounds,
    ensures
        crate::temps::drop_round(crate::temps::drop_rounds(ss, rounds)) is None,
    decreases rounds,
{
    match crate::temps::drop_round(ss) {
        Some(next) => {
            law_each_round_shrinks(ss);
            lemma_rounds_reach_none(next, (rounds - 1) as nat);
        },
        None => {},
    }
}

/// Dropping unread temporaries from a body that holds fewer statements than
/// a `usize` can count leaves no temporary defined for nothing.
pub proof fn law_no_unread_temp_is_left(ss: Seq<StmtView>)
    requires
        count(ss) < crate::lists::depth_bound(),
    ensures
        ({
            let left = crate::temps::drop_rounds(ss, crate::temps::round_bound());
            crate::temps::first_unread(left, stmts_preorder(left)) is None
        }),
{
    lemma_rounds_reach_none(ss, crate::temps::round_bound());
}

} // verus!

verus! {

pub proof fn lemma_count_concat(a: Seq<StmtView>, b: Seq<StmtView>)
    ensures
        count(a + b) == count(a) + count(b),
    decreases b.len(),
{
    if b.len() == 0 {
        assert(a + b =~= a);
    } else {
        let b0 = b.drop_last();
        lemma_count_concat(a, b0);
        assert((a + b0).push(b.last()) =~= a + b);
        assert(b0.push(b.last()) =~= b);
        lemma_count_push(a + b0, b.last());
        lemma_count_push(b0, b.last());
    }
}

/// Removing a statement from a list drops it and what is nested in it.
pub proof fn lemma_count_remove(list: Seq<StmtView>, i: int)
    requires
        0 <= i < list.len(),
    ensures
        count(list.remove(i)) + 1 + nested_count(list[i]) == count(list),
{
    let before = list.take(i);
    let after = list.skip(i + 1);
    assert(list.remove(i) =~= before + after);
    assert(list =~= before.push(list[i]) + after);
    lemma_count_concat(before, after);
    lemma_count_concat(before.push(list[i]), after);
    lemma_count_push(before, list[i]);
}

/// Replacing a statement by one with as many nested statements keeps the
/// count; by one with no more, keeps it or lowers it.
pub proof fn lemma_count_update(list: Seq<StmtView>, i: int, s: StmtView)
    requires
        0 <= i < list.len(),
        nested_count(s) <= nested_count(list[i]),
    ensures
        count(list.update(i, s)) <= count(list),
{
    let tt = list.update(i, s);
    assert forall|j: int| 0 <= j < list.len() implies nested_count(#[trigger] tt[j]) <= nested_count(list[j]) by {}
    lemma_count_pointwise(tt, list);
}

pub proof fn lemma_arms_renamed_keep_bodies(arms: Seq<ArmView>, k: int, temp: Seq<char>, source: Seq<char>)
    ensures
        arms_preorder(crate::aliases::arms_renamed_at(arms, k, temp, source)) == arms_preorder(arms),
    decreases arms.len(),
{
    if arms.len() > 0 {
        lemma_arms_renamed_keep_bodies(arms.drop_last(), k, temp, source);
        let renamed = crate::aliases::arms_renamed_at(arms, k, temp, source);
        assert(renamed.drop_last() =~= crate::aliases::arms_renamed_at(arms.drop_last(), k, temp, source));
        assert(crate::bodies::arm_body(renamed.last()) == crate::bodies::arm_body(arms.last()));
    }
}

/// Renaming the read of a temporary touches no nested statement.
pub proof fn lemma_replace_only_read_count(s: StmtView, temp: Seq<char>, source: Seq<char>)
    requires
        crate::aliases::replace_only_read_spec(s, temp, source) is Some,
    ensures
        nested_count(crate::aliases::replace_only_read_spec(s, temp, source).unwrap()) == nested_count(s),
    decreases s,
{
    match s {
        StmtView::Directed { directive, inner } => {
            lemma_replace_only_read_count(*inner, temp, source);
            let n = crate::aliases::replace_only_read_spec(*inner, temp, source).unwrap();
            assert(crate::aliases::replace_only_read_spec(s, temp, source).unwrap() == StmtView::Directed {
                directive,
                inner: Box::new(n),
            });
            assert(nested_preorder(StmtView::Directed { directive, inner: Box::new(n) }) == seq![n] + nested_preorder(n));
            assert(nested_preorder(s) == seq![*inner] + nested_preorder(*inner));
            assert(nested_count(StmtView::Directed { directive, inner: Box::new(n) }) == 1 + nested_count(n));
            assert(nested_count(s) == 1 + nested_count(*inner));
        },
        StmtView::Select(plan) => {
            let r = crate::aliases::rename_target(
                crate::aliases::sibling_analyses(crate::aliases::select_siblings(plan.arms), temp),
                None,
            ).unwrap();
            lemma_arms_renamed_keep_bodies(plan.arms, r, temp, source);
            let n = crate::aliases::replace_only_read_spec(s, temp, source).unwrap();
            assert(n is Select);
            assert(n->Select_0.setup == plan.setup);
            assert(n->Select_0.postlude == plan.postlude);
            assert(select_preorder(n->Select_0) == select_preorder(plan));
        },
        StmtView::If(plan) => {
            let n = crate::aliases::replace_only_read_spec(s, temp, source).unwrap();
            assert(n is If);
            assert(n->If_0.condition_setup == plan.condition_setup);
            assert(n->If_0.then_body == plan.then_body);
            assert(n->If_0.else_arm == plan.else_arm);
            assert(if_preorder(n->If_0) == if_preorder(plan));
        },
        StmtView::Switch(plan) => {
            let n = crate::aliases::replace_only_read_spec(s, temp, source).unwrap();
            assert(n is Switch);
            assert(n->Switch_0.cases == plan.cases);
            assert(n->Switch_0.default == plan.default);
            assert(n->Switch_0.postlude == plan.postlude);
            assert(switch_preorder(n->Switch_0) == switch_preorder(plan));
        },
        StmtView::Assign(form) => {
            let n = crate::aliases::replace_only_read_spec(s, temp, source).unwrap();
            assert(n is Assign);
            match form {
                AssignView::Simple { target_capture, target, value } => {
                    assert(assign_preorder(n->Assign_0) == assign_preorder(form));
                },
                AssignView::Compound { target_capture, target, kind } => {
                    assert(assign_preorder(n->Assign_0) == assign_preorder(form));
                },
            }
        },
        _ => {},
    }
}

} // verus!

verus! {

pub proof fn lemma_name_aliases_count(list: Seq<StmtView>, index: int, uses: crate::cleanup::NameUses)
    ensures
        count(crate::aliases::inline_name_aliases_from(list, index, uses)) <= count(list),
    decreases list.len() - index,
{
    if !(index < 0 || index + 1 >= list.len()) {
        match crate::cleanup::alias_define_of(list[index]) {
            Some((temp, source)) => {
                if crate::cleanup::read_once(uses, temp) {
                    match crate::aliases::replace_only_read_spec(list[index + 1], temp, source) {
                        Some(next) => {
                            lemma_replace_only_read_count(list[index + 1], temp, source);
                            let updated = list.update(index + 1, next);
                            lemma_count_update(list, index + 1, next);
                            lemma_count_remove(updated, index);
                            lemma_name_aliases_count(updated.remove(index), index, uses);
                        },
                        None => lemma_name_aliases_count(list, index + 1, uses),
                    }
                } else {
                    lemma_name_aliases_count(list, index + 1, uses);
                }
            },
            None => lemma_name_aliases_count(list, index + 1, uses),
        }
    }
}

pub proof fn lemma_return_aliases_count(list: Seq<StmtView>, index: int, uses: crate::cleanup::NameUses)
    ensures
        count(crate::cleanup::inline_return_aliases_from(list, index, uses)) <= count(list),
    decreases list.len() - index,
{
    if !(index < 0 || index + 1 >= list.len()) {
        match crate::cleanup::returned_alias_of(list[index], list[index + 1]) {
            Some(name) => {
                if crate::cleanup::read_once(uses, name) {
                    let value = list[index]->Define_0.value;
                    let values = list[index + 1]->Return_0;
                    let removed = list.remove(index);
                    lemma_count_remove(list, index);
                    assert(removed[index] == list[index + 1]);
                    lemma_count_update(removed, index, StmtView::Return(values.update(0, value)));
                    lemma_return_aliases_count(
                        removed.update(index, StmtView::Return(values.update(0, value))),
                        index + 1,
                        uses,
                    );
                } else {
                    lemma_return_aliases_count(list, index + 1, uses);
                }
            },
            None => lemma_return_aliases_count(list, index + 1, uses),
        }
    }
}

pub proof fn lemma_unwrap_if_count(plan: IfView)
    ensures
        if_preorder(crate::cleanup::unwrap_if_spec(plan)).len() <= if_preorder(plan).len(),
    decreases plan,
{
    match plan.else_arm {
        ElseView::ElseIf(inner) => lemma_unwrap_if_count(*inner),
        _ => {},
    }
}

pub proof fn lemma_statement_rewrite_count(which: crate::cleanup::StatementRewrite, s: StmtView)
    ensures
        nested_count(crate::cleanup::statement_rewritten(which, s)) <= nested_count(s),
    decreases s,
{
    match which {
        crate::cleanup::StatementRewrite::FoldCompound => {
            match crate::cleanup::folded_compound_of(s) {
                Some(folded) => {
                    assert(stmts_preorder(Seq::<StmtView>::empty()).len() == 0);
                    assert(folded is Assign);
                    let form = folded->Assign_0;
                    assert(form is Compound);
                    assert(form->Compound_target_capture =~= Seq::<StmtView>::empty());
                    match form->Compound_kind {
                        CompoundView::OpAssign { rhs, .. } => {
                            assert(rhs.setup =~= Seq::<StmtView>::empty());
                        },
                        _ => {},
                    }
                    assert(assign_preorder(form).len() == 0);
                    assert(nested_preorder(folded).len() == 0);
                },
                None => {},
            }
        },
        crate::cleanup::StatementRewrite::UnwrapTerminalElse => match s {
            StmtView::Directed { directive, inner } => {
                lemma_statement_rewrite_count(which, *inner);
                let n = crate::cleanup::unwrap_terminal_else_spec(*inner);
                assert(nested_preorder(StmtView::Directed { directive, inner: Box::new(n) }) == seq![n] + nested_preorder(n));
                assert(nested_preorder(s) == seq![*inner] + nested_preorder(*inner));
            },
            StmtView::If(plan) => lemma_unwrap_if_count(plan),
            _ => {},
        },
        crate::cleanup::StatementRewrite::DropEmptyElse => lemma_drop_empty_else_count(s),
    }
}

pub proof fn lemma_each_statement_shrinks(which: crate::cleanup::StatementRewrite)
    ensures
        shrinks(crate::lists::pass_fn(crate::cleanup::EachStatement { which })),
{
    let pass = crate::cleanup::EachStatement { which };
    assert forall|list: Seq<StmtView>| #[trigger] count(crate::lists::pass_fn(pass)(list)) <= count(list) by {
        let tt = crate::lists::pass_fn(pass)(list);
        assert forall|i: int| 0 <= i < list.len() implies nested_count(#[trigger] tt[i]) <= nested_count(list[i]) by {
            lemma_statement_rewrite_count(which, list[i]);
        }
        lemma_count_pointwise(tt, list);
    }
}

} // verus!

verus! {

pub proof fn lemma_count_at_least_length(ss: Seq<StmtView>)
    ensures
        count(ss) >= ss.len(),
    decreases ss.len(),
{
    if ss.len() > 0 {
        let prefix = ss.drop_last();
        lemma_count_at_least_length(prefix);
        assert(prefix.push(ss.last()) =~= ss);
        lemma_count_push(prefix, ss.last());
    }
}

pub proof fn lemma_count_two(a: StmtView, b: StmtView)
    ensures
        count(seq![a, b]) == 2 + nested_count(a) + nested_count(b),
{
    let empty = Seq::<StmtView>::empty();
    assert(count(empty) == 0);
    lemma_count_push(empty, a);
    assert(empty.push(a) =~= seq![a]);
    lemma_count_push(seq![a], b);
    assert(seq![a].push(b) =~= seq![a, b]);
}

pub proof fn lemma_count_three(a: StmtView, b: StmtView, c: StmtView)
    ensures
        count(seq![a, b, c]) == 3 + nested_count(a) + nested_count(b) + nested_count(c),
{
    lemma_count_two(a, b);
    lemma_count_push(seq![a, b], c);
    assert(seq![a, b].push(c) =~= seq![a, b, c]);
}

/// Returning a found element from its loop never adds a statement.
pub proof fn lemma_found_return_count(block: Seq<StmtView>)
    ensures
        count(crate::found::found_returned(block)) <= count(block),
{
    match crate::found::found_loop_return_of(block) {
        Some(f) => {
            if crate::found::only_the_search_reads(block, f) {
                let loop_at = f.loop_at;
                let d = f.declares_at;
                let plan = block[loop_at]->Loop_0;
                let last = plan.body.last();
                let hit = last->If_0;
                assert(hit.then_body.len() >= 2);
                lemma_count_at_least_length(hit.then_body);
                let success = crate::found::renamed_success(block[loop_at + 2]->Return_0, f.value, f.element);
                let failure = crate::cleanup::flag_guarded_return_of(block[loop_at + 1], f.flag).unwrap();
                let returned = seq![StmtView::Return(success)];
                lemma_count_push(Seq::<StmtView>::empty(), StmtView::Return(success));
                assert(Seq::<StmtView>::empty().push(StmtView::Return(success)) =~= returned);
                let new_hit = IfView { then_body: returned, ..hit };
                assert(if_preorder(new_hit).len() <= if_preorder(hit).len());
                lemma_count_update(plan.body, plan.body.len() - 1, StmtView::If(new_hit));
                let new_loop = crate::found::loop_returning(plan, success);
                assert(nested_count(StmtView::Loop(new_loop)) <= nested_count(StmtView::Loop(plan)));
                let tail = seq![StmtView::Loop(new_loop), StmtView::Return(failure)];
                lemma_count_two(StmtView::Loop(new_loop), StmtView::Return(failure));
                lemma_count_concat(block.take(d), tail);
                assert(crate::found::found_returned(block) == block.take(d) + tail);
                let rest = block.skip(loop_at);
                assert(rest =~= seq![block[loop_at], block[loop_at + 1], block[loop_at + 2]]);
                lemma_count_three(block[loop_at], block[loop_at + 1], block[loop_at + 2]);
                assert(block =~= block.take(loop_at) + rest);
                lemma_count_concat(block.take(loop_at), rest);
                assert(block.take(loop_at) =~= block.take(d) + block.subrange(d, loop_at));
                lemma_count_concat(block.take(d), block.subrange(d, loop_at));
            }
        },
        None => {},
    }
}

pub proof fn lemma_found_returns_shrink()
    ensures
        shrinks(crate::lists::pass_fn(crate::found::FoundReturns)),
{
    assert forall|list: Seq<StmtView>| #[trigger] count(crate::lists::pass_fn(crate::found::FoundReturns)(list)) <= count(list) by {
        lemma_found_return_count(list);
    }
}

} // verus!

verus! {

pub proof fn lemma_name_aliases_shrink(uses: crate::cleanup::NameUses)
    ensures
        shrinks(crate::lists::pass_fn(crate::aliases::NameAliases { uses })),
{
    assert forall|list: Seq<StmtView>| #[trigger] count(crate::lists::pass_fn(crate::aliases::NameAliases { uses })(list))
        <= count(list) by {
        lemma_name_aliases_count(list, 0, uses);
    }
}

pub proof fn lemma_return_aliases_shrink(uses: crate::cleanup::NameUses)
    ensures
        shrinks(crate::lists::pass_fn(crate::cleanup::ReturnAliases { uses })),
{
    assert forall|list: Seq<StmtView>| #[trigger] count(crate::lists::pass_fn(crate::cleanup::ReturnAliases { uses })(list))
        <= count(list) by {
        lemma_return_aliases_count(list, 0, uses);
    }
}

pub proof fn lemma_drop_rounds_count(ss: Seq<StmtView>, rounds: nat)
    ensures
        count(crate::temps::drop_rounds(ss, rounds)) <= count(ss),
    decreases rounds,
{
    if rounds > 0 {
        match crate::temps::first_unread(ss, stmts_preorder(ss)) {
            Some(name) => {
                let d = crate::lists::depth_bound();
                lemma_retain_shrinks(name);
                lemma_tree_map_count(crate::temps::retain_fn(name), ss, d);
                let kept = tree_map(crate::temps::retain_fn(name), ss, d);
                lemma_drop_empty_else_shrinks();
                lemma_tree_map_count(
                    crate::lists::pass_fn(
                        crate::cleanup::EachStatement { which: crate::cleanup::StatementRewrite::DropEmptyElse },
                    ),
                    kept,
                    d,
                );
                let next = crate::temps::drop_round(ss).unwrap();
                lemma_drop_rounds_count(next, (rounds - 1) as nat);
            },
            None => {},
        }
    }
}

/// Cleaning up a body never makes it hold more statements, counting those
/// nested in branches, loops and cases.
pub proof fn law_clean_up_never_adds_statements(
    before: Seq<StmtView>,
    inlined: Seq<StmtView>,
    returned: Seq<StmtView>,
)
    requires
        crate::found::name_aliases_inlined(before, inlined),
        crate::found::return_aliases_inlined(inlined, returned),
    ensures
        count(crate::found::later_rewrites(returned)) <= count(before),
{
    let d = crate::lists::depth_bound();
    let uses = choose|uses: crate::cleanup::NameUses|
        #[trigger] uses.describes(before) && inlined == crate::lists::tree_rewritten(
            crate::aliases::NameAliases { uses },
            before,
        );
    lemma_name_aliases_shrink(uses);
    lemma_tree_map_count(crate::lists::pass_fn(crate::aliases::NameAliases { uses }), before, d);
    let uses2 = choose|uses: crate::cleanup::NameUses|
        #[trigger] uses.describes(inlined) && returned == crate::lists::tree_rewritten(
            crate::cleanup::ReturnAliases { uses },
            inlined,
        );
    lemma_return_aliases_shrink(uses2);
    lemma_tree_map_count(crate::lists::pass_fn(crate::cleanup::ReturnAliases { uses: uses2 }), inlined, d);
    let dropped = crate::temps::drop_rounds(returned, crate::temps::round_bound());
    lemma_drop_rounds_count(returned, crate::temps::round_bound());
    let fold = crate::cleanup::EachStatement { which: crate::cleanup::StatementRewrite::FoldCompound };
    lemma_each_statement_shrinks(crate::cleanup::StatementRewrite::FoldCompound);
    lemma_tree_map_count(crate::lists::pass_fn(fold), dropped, d);
    let folded = crate::lists::tree_rewritten(fold, dropped);
    lemma_found_returns_shrink();
    lemma_tree_map_count(crate::lists::pass_fn(crate::found::FoundReturns), folded, d);
    let found = crate::lists::tree_rewritten(crate::found::FoundReturns, folded);
    let unwrap = crate::cleanup::EachStatement { which: crate::cleanup::StatementRewrite::UnwrapTerminalElse };
    lemma_each_statement_shrinks(crate::cleanup::StatementRewrite::UnwrapTerminalElse);
    lemma_tree_map_count(crate::lists::pass_fn(unwrap), found, d);
}

} // verus!
