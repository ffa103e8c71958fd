//! A statement is never among the statements nested in it, nor in any list
//! the rewrite of its nested lists is handed first.

use crate::lists::{if_tree, nested_rewritten, tree_map};
use crate::model::{ArmView, AssignView, CaseView, CompoundView, ElseView, IfView, SelectView, StmtView, SwitchView};
use crate::walk::{
    arms_preorder, assign_preorder, cases_preorder, else_preorder, if_preorder, nested_preorder,
    select_preorder, stmts_preorder, switch_preorder,
};
use vstd::prelude::*;

verus! {

proof fn lemma_in_concat(a: Seq<StmtView>, b: Seq<StmtView>, x: StmtView)
    requires
        (a + b).contains(x),
    ensures
        a.contains(x) || b.contains(x),
{
    let i = choose|i: int| 0 <= i < (a + b).len() && (a + b)[i] == x;
    if i < a.len() {
        assert(a[i] == x);
    } else {
        assert(b[i - a.len()] == x);
    }
}

/// Everything the walk of a list reaches lies strictly inside the list.
pub proof fn lemma_stmts_below(ss: Seq<StmtView>)
    ensures
        forall|x: StmtView| #[trigger] stmts_preorder(ss).contains(x) ==> decreases_to!(ss => x),
    decreases ss, 1nat,
{
    if ss.len() > 0 {
        let prefix = ss.drop_last();
        let last = ss.last();
        assert(decreases_to!(ss => prefix));
        assert(decreases_to!(ss => ss[ss.len() - 1]));
        lemma_stmts_below(prefix);
        lemma_nested_below(last);
        assert forall|x: StmtView| #[trigger] stmts_preorder(ss).contains(x) implies decreases_to!(ss => x) by {
            lemma_in_concat(stmts_preorder(prefix) + seq![last], nested_preorder(last), x);
            if (stmts_preorder(prefix) + seq![last]).contains(x) {
                lemma_in_concat(stmts_preorder(prefix), seq![last], x);
                if seq![last].contains(x) {
                    assert(seq![last][0] == last);
                }
            }
        }
    }
}

pub proof fn lemma_if_below(plan: IfView)
    ensures
        forall|x: StmtView| #[trigger] if_preorder(plan).contains(x) ==> decreases_to!(plan => x),
    decreases plan, 0nat,
{
    lemma_stmts_below(plan.condition_setup);
    lemma_stmts_below(plan.then_body);
    lemma_else_below(plan.else_arm);
    assert forall|x: StmtView| #[trigger] if_preorder(plan).contains(x) implies decreases_to!(plan => x) by {
        lemma_in_concat(stmts_preorder(plan.condition_setup) + stmts_preorder(plan.then_body), else_preorder(plan.else_arm), x);
        if (stmts_preorder(plan.condition_setup) + stmts_preorder(plan.then_body)).contains(x) {
            lemma_in_concat(stmts_preorder(plan.condition_setup), stmts_preorder(plan.then_body), x);
        }
    }
}

pub proof fn lemma_else_below(arm: ElseView)
    ensures
        forall|x: StmtView| #[trigger] else_preorder(arm).contains(x) ==> decreases_to!(arm => x),
    decreases arm, 0nat,
{
    match arm {
        ElseView::NoElse => {
            assert forall|x: StmtView| #[trigger] else_preorder(arm).contains(x) implies decreases_to!(arm => x) by {
                assert(else_preorder(arm).len() == 0);
            }
        },
        ElseView::ElseIf(inner) => {
            lemma_if_below(*inner);
            assert forall|x: StmtView| #[trigger] else_preorder(arm).contains(x) implies decreases_to!(arm => x) by {
                assert(if_preorder(*inner).contains(x));
                assert(decreases_to!(arm => *inner));
            }
        },
        ElseView::Else { body, .. } => {
            lemma_stmts_below(body);
            assert forall|x: StmtView| #[trigger] else_preorder(arm).contains(x) implies decreases_to!(arm => x) by {
                assert(stmts_preorder(body).contains(x));
                assert(decreases_to!(arm => body));
            }
        },
    }
}

pub proof fn lemma_arms_below(arms: Seq<ArmView>)
    ensures
        forall|x: StmtView| #[trigger] arms_preorder(arms).contains(x) ==> decreases_to!(arms => x),
    decreases arms, 0nat,
{
    if arms.len() > 0 {
        let prefix = arms.drop_last();
        let last = arms.last();
        assert(decreases_to!(arms => prefix));
        assert(decreases_to!(arms => arms[arms.len() - 1]));
        lemma_arms_below(prefix);
        let body = crate::bodies::arm_body(last);
        match last {
            ArmView::Receive { body, .. } => assert(decreases_to!(last => body)),
            ArmView::Send { body, .. } => assert(decreases_to!(last => body)),
            ArmView::Default { body } => assert(decreases_to!(last => body)),
        }
        lemma_stmts_below(body);
        assert forall|x: StmtView| #[trigger] arms_preorder(arms).contains(x) implies decreases_to!(arms => x) by {
            lemma_in_concat(arms_preorder(prefix), stmts_preorder(body), x);
        }
    }
}

pub proof fn lemma_cases_below(cases: Seq<CaseView>)
    ensures
        forall|x: StmtView| #[trigger] cases_preorder(cases).contains(x) ==> decreases_to!(cases => x),
    decreases cases, 0nat,
{
    if cases.len() > 0 {
        let prefix = cases.drop_last();
        let last = cases.last();
        assert(decreases_to!(cases => prefix));
        assert(decreases_to!(cases => cases[cases.len() - 1]));
        lemma_cases_below(prefix);
        lemma_stmts_below(last.body);
        assert forall|x: StmtView| #[trigger] cases_preorder(cases).contains(x) implies decreases_to!(cases => x) by {
            lemma_in_concat(cases_preorder(prefix), stmts_preorder(last.body), x);
        }
    }
}

pub proof fn lemma_assign_below(form: AssignView)
    ensures
        forall|x: StmtView| #[trigger] assign_preorder(form).contains(x) ==> decreases_to!(form => x),
    decreases form, 0nat,
{
    match form {
        AssignView::Compound { target_capture, kind, .. } => {
            lemma_stmts_below(target_capture);
            match kind {
                CompoundView::OpAssign { rhs, .. } => {
                    assert(decreases_to!(form => kind));
                    assert(decreases_to!(kind => rhs));
                    assert(decreases_to!(rhs => rhs.setup));
                    lemma_stmts_below(rhs.setup);
                    assert forall|x: StmtView| #[trigger] assign_preorder(form).contains(x) implies decreases_to!(form => x) by {
                        lemma_in_concat(stmts_preorder(target_capture), stmts_preorder(rhs.setup), x);
                    }
                },
                _ => {
                    assert forall|x: StmtView| #[trigger] assign_preorder(form).contains(x) implies decreases_to!(form => x) by {
                        lemma_in_concat(stmts_preorder(target_capture), Seq::empty(), x);
                    }
                },
            }
        },
        AssignView::Simple { target_capture, value, .. } => {
            assert(decreases_to!(form => value));
            assert(decreases_to!(value => value.setup));
            lemma_stmts_below(target_capture);
            lemma_stmts_below(value.setup);
            assert forall|x: StmtView| #[trigger] assign_preorder(form).contains(x) implies decreases_to!(form => x) by {
                lemma_in_concat(stmts_preorder(target_capture), stmts_preorder(value.setup), x);
            }
        },
    }
}

pub proof fn lemma_select_below(plan: SelectView)
    ensures
        forall|x: StmtView| #[trigger] select_preorder(plan).contains(x) ==> decreases_to!(plan => x),
    decreases plan, 0nat,
{
    lemma_stmts_below(plan.setup);
    lemma_arms_below(plan.arms);
    lemma_stmts_below(plan.postlude);
    assert forall|x: StmtView| #[trigger] select_preorder(plan).contains(x) implies decreases_to!(plan => x) by {
        lemma_in_concat(stmts_preorder(plan.setup) + arms_preorder(plan.arms), stmts_preorder(plan.postlude), x);
        if (stmts_preorder(plan.setup) + arms_preorder(plan.arms)).contains(x) {
            lemma_in_concat(stmts_preorder(plan.setup), arms_preorder(plan.arms), x);
        }
    }
}

pub proof fn lemma_switch_below(plan: SwitchView)
    ensures
        forall|x: StmtView| #[trigger] switch_preorder(plan).contains(x) ==> decreases_to!(plan => x),
    decreases plan, 0nat,
{
    lemma_cases_below(plan.cases);
    lemma_stmts_below(plan.postlude);
    let default_part = match plan.default {
        Some(body) => {
            assert(decreases_to!(plan => plan.default));
            lemma_stmts_below(body);
            stmts_preorder(body)
        },
        None => Seq::empty(),
    };
    assert forall|x: StmtView| #[trigger] switch_preorder(plan).contains(x) implies decreases_to!(plan => x) by {
        lemma_in_concat(cases_preorder(plan.cases) + default_part, stmts_preorder(plan.postlude), x);
        if (cases_preorder(plan.cases) + default_part).contains(x) {
            lemma_in_concat(cases_preorder(plan.cases), default_part, x);
        }
    }
}

/// Everything nested in a statement lies strictly inside it.
pub proof fn lemma_nested_below(s: StmtView)
    ensures
        forall|x: StmtView| #[trigger] nested_preorder(s).contains(x) ==> decreases_to!(s => x),
    decreases s, 0nat,
{
    match s {
        StmtView::If(plan) => {
            lemma_if_below(plan);
            assert forall|x: StmtView| #[trigger] nested_preorder(s).contains(x) implies decreases_to!(s => x) by {
                assert(if_preorder(plan).contains(x));
                assert(decreases_to!(s => plan));
            }
        },
        StmtView::Loop(plan) => {
            lemma_stmts_below(plan.prologue);
            lemma_stmts_below(plan.body);
            assert forall|x: StmtView| #[trigger] nested_preorder(s).contains(x) implies decreases_to!(s => x) by {
                lemma_in_concat(stmts_preorder(plan.prologue), stmts_preorder(plan.body), x);
                assert(decreases_to!(s => plan));
                assert(decreases_to!(plan => plan.prologue));
                assert(decreases_to!(plan => plan.body));
            }
        },
        StmtView::Block(body) => {
            lemma_stmts_below(body);
            assert forall|x: StmtView| #[trigger] nested_preorder(s).contains(x) implies decreases_to!(s => x) by {
                assert(stmts_preorder(body).contains(x));
                assert(decreases_to!(s => body));
            }
        },
        StmtView::Body(body) => {
            lemma_stmts_below(body);
            assert forall|x: StmtView| #[trigger] nested_preorder(s).contains(x) implies decreases_to!(s => x) by {
                assert(stmts_preorder(body).contains(x));
                assert(decreases_to!(s => body));
            }
        },
        StmtView::WhileLet(body) => {
            lemma_stmts_below(body);
            assert forall|x: StmtView| #[trigger] nested_preorder(s).contains(x) implies decreases_to!(s => x) by {
                assert(stmts_preorder(body).contains(x));
                assert(decreases_to!(s => body));
            }
        },
        StmtView::Assign(form) => {
            lemma_assign_below(form);
            assert forall|x: StmtView| #[trigger] nested_preorder(s).contains(x) implies decreases_to!(s => x) by {
                assert(assign_preorder(form).contains(x));
                assert(decreases_to!(s => form));
            }
        },
        StmtView::Select(plan) => {
            lemma_select_below(plan);
            assert forall|x: StmtView| #[trigger] nested_preorder(s).contains(x) implies decreases_to!(s => x) by {
                assert(select_preorder(plan).contains(x));
                assert(decreases_to!(s => plan));
            }
        },
        StmtView::Switch(plan) => {
            lemma_switch_below(plan);
            assert forall|x: StmtView| #[trigger] nested_preorder(s).contains(x) implies decreases_to!(s => x) by {
                assert(switch_preorder(plan).contains(x));
                assert(decreases_to!(s => plan));
            }
        },
        StmtView::Directed { inner, .. } => {
            lemma_nested_below(*inner);
            assert(decreases_to!(s => *inner));
            assert forall|x: StmtView| #[trigger] nested_preorder(s).contains(x) implies decreases_to!(s => x) by {
                lemma_in_concat(seq![*inner], nested_preorder(*inner), x);
                if seq![*inner].contains(x) {
                    assert(seq![*inner][0] == *inner);
                }
            }
        },
        _ => {
            assert forall|x: StmtView| #[trigger] nested_preorder(s).contains(x) implies decreases_to!(s => x) by {
                assert(nested_preorder(s).len() == 0);
            }
        },
    }
}

/// A statement is never among the statements nested in it, which is what
/// `for_each_nested_statement` visits.
pub proof fn law_statement_is_not_nested_in_itself(s: StmtView)
    ensures
        !nested_preorder(s).contains(s),
{
    lemma_nested_below(s);
}

/// The statement lists of an `if` chain, in the order the rewrite takes them.
pub open spec fn if_lists(plan: IfView) -> Seq<Seq<StmtView>>
    decreases plan,
{
    seq![plan.condition_setup, plan.then_body] + match plan.else_arm {
        ElseView::NoElse => Seq::empty(),
        ElseView::ElseIf(inner) => if_lists(*inner),
        ElseView::Else { body, .. } => seq![body],
    }
}

/// The statement lists that the rewrite of the nested lists of `s` hands
/// the pass as they stand, before any of them is rewritten.
pub open spec fn handed_lists(s: StmtView) -> Seq<Seq<StmtView>>
    decreases s,
{
    match s {
        StmtView::If(plan) => if_lists(plan),
        StmtView::Loop(plan) => seq![plan.prologue, plan.body],
        StmtView::Block(body) => seq![body],
        StmtView::Body(body) => seq![body],
        StmtView::WhileLet(body) => seq![body],
        StmtView::Assign(AssignView::Compound { target_capture, kind, .. }) => seq![target_capture] + match kind {
            CompoundView::OpAssign { rhs, .. } => seq![rhs.setup],
            _ => Seq::empty(),
        },
        StmtView::Assign(AssignView::Simple { target_capture, value, .. }) => seq![target_capture, value.setup],
        StmtView::Select(plan) => seq![plan.setup] + Seq::new(
            plan.arms.len(),
            |i: int| crate::bodies::arm_body(plan.arms[i]),
        ) + seq![plan.postlude],
        StmtView::Switch(plan) => Seq::new(plan.cases.len(), |i: int| plan.cases[i].body) + match plan.default {
            Some(body) => seq![body],
            None => Seq::empty(),
        } + seq![plan.postlude],
        StmtView::Directed { inner, .. } => handed_lists(*inner),
        _ => Seq::empty(),
    }
}

proof fn lemma_if_lists_below(plan: IfView)
    ensures
        forall|k: int, i: int|
            0 <= k < if_lists(plan).len() && 0 <= i < if_lists(plan)[k].len() ==> decreases_to!(plan => #[trigger] if_lists(plan)[k][i]),
    decreases plan,
{
    let tail = match plan.else_arm {
        ElseView::NoElse => Seq::<Seq<StmtView>>::empty(),
        ElseView::ElseIf(inner) => if_lists(*inner),
        ElseView::Else { body, .. } => seq![body],
    };
    let lists = if_lists(plan);
    assert(lists == seq![plan.condition_setup, plan.then_body] + tail);
    match plan.else_arm {
        ElseView::ElseIf(inner) => {
            lemma_if_lists_below(*inner);
            assert(decreases_to!(plan => plan.else_arm));
            assert(decreases_to!(plan.else_arm => *inner));
        },
        ElseView::Else { body, .. } => {
            assert(decreases_to!(plan => plan.else_arm));
            assert(decreases_to!(plan.else_arm => body));
        },
        ElseView::NoElse => {},
    }
    assert forall|k: int, i: int| 0 <= k < lists.len() && 0 <= i < lists[k].len() implies decreases_to!(plan => #[trigger] lists[k][i]) by {
        if k == 0 {
            assert(decreases_to!(plan => plan.condition_setup));
            assert(decreases_to!(plan.condition_setup => plan.condition_setup[i]));
        } else if k == 1 {
            assert(decreases_to!(plan => plan.then_body));
            assert(decreases_to!(plan.then_body => plan.then_body[i]));
        } else {
            assert(lists[k] == tail[k - 2]);
            match plan.else_arm {
                ElseView::ElseIf(inner) => {
                    assert(decreases_to!(*inner => tail[k - 2][i]));
                },
                ElseView::Else { body, .. } => {
                    assert(tail[k - 2] == body);
                    assert(decreases_to!(body => body[i]));
                },
                ElseView::NoElse => {},
            }
        }
    }
}

/// Every statement of a list that the rewrite hands the pass first lies
/// strictly inside `s`.
pub proof fn lemma_handed_lists_below(s: StmtView)
    ensures
        forall|k: int, i: int|
            0 <= k < handed_lists(s).len() && 0 <= i < handed_lists(s)[k].len() ==> decreases_to!(s => #[trigger] handed_lists(s)[k][i]),
    decreases s,
{
    let lists = handed_lists(s);
    match s {
        StmtView::If(plan) => {
            lemma_if_lists_below(plan);
            assert(handed_lists(s) == if_lists(plan));
            assert(decreases_to!(s => plan));
            assert forall|k: int, i: int|
                0 <= k < handed_lists(s).len() && 0 <= i < handed_lists(s)[k].len() implies decreases_to!(s => #[trigger] handed_lists(s)[k][i]) by {
                let x = if_lists(plan)[k][i];
                assert(decreases_to!(plan => x));
            }
        },
        StmtView::Loop(plan) => {
            assert forall|k: int, i: int| 0 <= k < lists.len() && 0 <= i < lists[k].len() implies decreases_to!(s => #[trigger] lists[k][i]) by {
                assert(decreases_to!(s => plan));
                if k == 0 {
                    assert(decreases_to!(plan => plan.prologue));
                    assert(decreases_to!(plan.prologue => plan.prologue[i]));
                } else {
                    assert(decreases_to!(plan => plan.body));
                    assert(decreases_to!(plan.body => plan.body[i]));
                }
            }
        },
        StmtView::Block(body) => {
            assert forall|k: int, i: int| 0 <= k < lists.len() && 0 <= i < lists[k].len() implies decreases_to!(s => #[trigger] lists[k][i]) by {
                assert(decreases_to!(s => body));
                assert(decreases_to!(body => body[i]));
            }
        },
        StmtView::Body(body) => {
            assert forall|k: int, i: int| 0 <= k < lists.len() && 0 <= i < lists[k].len() implies decreases_to!(s => #[trigger] lists[k][i]) by {
                assert(decreases_to!(s => body));
                assert(decreases_to!(body => body[i]));
            }
        },
        StmtView::WhileLet(body) => {
            assert forall|k: int, i: int| 0 <= k < lists.len() && 0 <= i < lists[k].len() implies decreases_to!(s => #[trigger] lists[k][i]) by {
                assert(decreases_to!(s => body));
                assert(decreases_to!(body => body[i]));
            }
        },
        StmtView::Assign(form) => {
            assert(decreases_to!(s => form));
            match form {
                AssignView::Compound { target_capture, kind, .. } => {
                    assert forall|k: int, i: int| 0 <= k < lists.len() && 0 <= i < lists[k].len() implies decreases_to!(s => #[trigger] lists[k][i]) by {
                        if k == 0 {
                            assert(decreases_to!(form => target_capture));
                            assert(decreases_to!(target_capture => target_capture[i]));
                        } else {
                            match kind {
                                CompoundView::OpAssign { rhs, .. } => {
                                    assert(lists[k] == rhs.setup);
                                    assert(decreases_to!(form => kind));
                                    assert(decreases_to!(kind => rhs));
                                    assert(decreases_to!(rhs => rhs.setup));
                                    assert(decreases_to!(rhs.setup => rhs.setup[i]));
                                },
                                _ => {},
                            }
                        }
                    }
                },
                AssignView::Simple { target_capture, value, .. } => {
                    assert forall|k: int, i: int| 0 <= k < lists.len() && 0 <= i < lists[k].len() implies decreases_to!(s => #[trigger] lists[k][i]) by {
                        if k == 0 {
                            assert(decreases_to!(form => target_capture));
                            assert(decreases_to!(target_capture => target_capture[i]));
                        } else {
                            assert(decreases_to!(form => value));
                            assert(decreases_to!(value => value.setup));
                            assert(decreases_to!(value.setup => value.setup[i]));
                        }
                    }
                },
            }
        },
        StmtView::Select(plan) => {
            let arms = Seq::new(plan.arms.len(), |j: int| crate::bodies::arm_body(plan.arms[j]));
            assert(lists == seq![plan.setup] + arms + seq![plan.postlude]);
            assert forall|k: int, i: int| 0 <= k < lists.len() && 0 <= i < lists[k].len() implies decreases_to!(s => #[trigger] lists[k][i]) by {
                assert(decreases_to!(s => plan));
                if k == 0 {
                    assert(decreases_to!(plan => plan.setup));
                    assert(decreases_to!(plan.setup => plan.setup[i]));
                } else if k <= plan.arms.len() {
                    let arm = plan.arms[k - 1];
                    assert(lists[k] == crate::bodies::arm_body(arm));
                    assert(decreases_to!(plan => plan.arms));
                    assert(decreases_to!(plan.arms => plan.arms[k - 1]));
                    match arm {
                        ArmView::Receive { body, .. } => {
                            assert(decreases_to!(arm => body));
                            assert(decreases_to!(body => body[i]));
                        },
                        ArmView::Send { body, .. } => {
                            assert(decreases_to!(arm => body));
                            assert(decreases_to!(body => body[i]));
                        },
                        ArmView::Default { body } => {
                            assert(decreases_to!(arm => body));
                            assert(decreases_to!(body => body[i]));
                        },
                    }
                } else {
                    assert(lists[k] == plan.postlude);
                    assert(decreases_to!(plan => plan.postlude));
                    assert(decreases_to!(plan.postlude => plan.postlude[i]));
                }
            }
        },
        StmtView::Switch(plan) => {
            let cases = Seq::new(plan.cases.len(), |j: int| plan.cases[j].body);
            let default_part = match plan.default {
                Some(body) => seq![body],
                None => Seq::<Seq<StmtView>>::empty(),
            };
            assert(lists == cases + default_part + seq![plan.postlude]);
            assert forall|k: int, i: int| 0 <= k < lists.len() && 0 <= i < lists[k].len() implies decreases_to!(s => #[trigger] lists[k][i]) by {
                assert(decreases_to!(s => plan));
                if k < plan.cases.len() {
                    let case = plan.cases[k];
                    assert(lists[k] == case.body);
                    assert(decreases_to!(plan => plan.cases));
                    assert(decreases_to!(plan.cases => plan.cases[k]));
                    assert(decreases_to!(case => case.body));
                    assert(decreases_to!(case.body => case.body[i]));
                } else if k < plan.cases.len() + default_part.len() {
                    match plan.default {
                        Some(body) => {
                            assert(lists[k] == body);
                            assert(decreases_to!(plan => plan.default));
                            assert(decreases_to!(plan.default => body));
                            assert(decreases_to!(body => body[i]));
                        },
                        None => {},
                    }
                } else {
                    assert(lists[k] == plan.postlude);
                    assert(decreases_to!(plan => plan.postlude));
                    assert(decreases_to!(plan.postlude => plan.postlude[i]));
                }
            }
        },
        StmtView::Directed { inner, .. } => {
            lemma_handed_lists_below(*inner);
            assert(decreases_to!(s => *inner));
            assert(lists == handed_lists(*inner));
            assert forall|k: int, i: int| 0 <= k < lists.len() && 0 <= i < lists[k].len() implies decreases_to!(s => #[trigger] lists[k][i]) by {
                assert(decreases_to!(*inner => handed_lists(*inner)[k][i]));
            }
        },
        _ => {},
    }
}

/// No statement list that the rewrite of the nested lists of `s` hands the
/// pass first holds `s` itself: those are the direct lists of `s` (of the
/// statement it directs, for a directed one), which `nested_rewritten` passes
/// to the pass before anything else.
pub proof fn law_no_handed_list_holds_the_statement(s: StmtView)
    ensures
        forall|k: int| 0 <= k < handed_lists(s).len() ==> !(#[trigger] handed_lists(s)[k]).contains(s),
{
    lemma_handed_lists_below(s);
    assert forall|k: int| 0 <= k < handed_lists(s).len() implies !(#[trigger] handed_lists(s)[k]).contains(s) by {
        if handed_lists(s)[k].contains(s) {
            let i = choose|i: int| 0 <= i < handed_lists(s)[k].len() && handed_lists(s)[k][i] == s;
            assert(decreases_to!(s => handed_lists(s)[k][i]));
        }
    }
}

/// The lists handed to the pass, each with what the rewrite makes of it.
pub open spec fn rewritten_lists(
    f: spec_fn(Seq<StmtView>) -> Seq<StmtView>,
    lists: Seq<Seq<StmtView>>,
    depth: nat,
) -> Seq<Seq<StmtView>> {
    lists.map_values(|list: Seq<StmtView>| tree_map(f, list, depth))
}

proof fn lemma_if_lists_rewritten(f: spec_fn(Seq<StmtView>) -> Seq<StmtView>, plan: IfView, depth: nat)
    ensures
        if_lists(if_tree(f, plan, depth)) == rewritten_lists(f, if_lists(plan), depth),
    decreases plan,
{
    let after = if_tree(f, plan, depth);
    match plan.else_arm {
        ElseView::ElseIf(inner) => {
            lemma_if_lists_rewritten(f, *inner, depth);
            assert(if_lists(after) =~= rewritten_lists(f, if_lists(plan), depth));
        },
        ElseView::Else { body, .. } => {
            assert(if_lists(after) =~= rewritten_lists(f, if_lists(plan), depth));
        },
        ElseView::NoElse => {
            assert(if_lists(after) =~= rewritten_lists(f, if_lists(plan), depth));
        },
    }
}

/// The rewrite of the nested lists of `s` hands the pass exactly the lists
/// of `handed_lists(s)`: the direct lists of `s` after the rewrite are those
/// lists, each rewritten by the pass and then in its own nested lists.
pub proof fn law_the_rewrite_hands_the_direct_lists(f: spec_fn(Seq<StmtView>) -> Seq<StmtView>, s: StmtView, depth: nat)
    ensures
        handed_lists(nested_rewritten(f, s, depth)) == rewritten_lists(f, handed_lists(s), depth),
    decreases s,
{
    let after = nested_rewritten(f, s, depth);
    match s {
        StmtView::If(plan) => lemma_if_lists_rewritten(f, plan, depth),
        StmtView::Directed { inner, .. } => law_the_rewrite_hands_the_direct_lists(f, *inner, depth),
        StmtView::Select(plan) => {
            let arms = crate::lists::select_tree(f, plan, depth).arms;
            assert forall|i: int| 0 <= i < plan.arms.len() implies crate::bodies::arm_body(#[trigger] arms[i])
                == tree_map(f, crate::bodies::arm_body(plan.arms[i]), depth) by {
                match plan.arms[i] {
                    ArmView::Receive { .. } => {},
                    ArmView::Send { .. } => {},
                    ArmView::Default { .. } => {},
                }
            }
            assert(handed_lists(after) =~= rewritten_lists(f, handed_lists(s), depth));
        },
        StmtView::Switch(plan) => {
            let tree = crate::lists::switch_tree(f, plan, depth);
            assert forall|i: int| 0 <= i < plan.cases.len() implies (#[trigger] tree.cases[i]).body
                == tree_map(f, plan.cases[i].body, depth) by {}
            let before_cases = Seq::new(plan.cases.len(), |i: int| plan.cases[i].body);
            let after_cases = Seq::new(tree.cases.len(), |i: int| tree.cases[i].body);
            assert(after_cases =~= rewritten_lists(f, before_cases, depth));
            match plan.default {
                Some(body) => assert(handed_lists(after) =~= rewritten_lists(f, handed_lists(s), depth)),
                None => assert(handed_lists(after) =~= rewritten_lists(f, handed_lists(s), depth)),
            }
        },
        StmtView::Assign(form) => {
            match form {
                AssignView::Compound { target_capture, kind, .. } => {
                    let tree = crate::lists::assign_tree(f, form, depth);
                    assert(after == StmtView::Assign(tree));
                    assert(tree->Compound_target_capture == tree_map(f, target_capture, depth));
                    match kind {
                        CompoundView::OpAssign { rhs, .. } => {
                            assert(tree->Compound_kind->OpAssign_rhs.setup == tree_map(f, rhs.setup, depth));
                            assert(handed_lists(after) == seq![
                                tree_map(f, target_capture, depth),
                                tree_map(f, rhs.setup, depth),
                            ]);
                            assert(handed_lists(s) == seq![target_capture, rhs.setup]);
                            assert(handed_lists(after) =~= rewritten_lists(f, handed_lists(s), depth));
                        },
                        _ => {
                            assert(tree->Compound_kind == kind);
                            assert(handed_lists(after) == seq![tree_map(f, target_capture, depth)] + Seq::empty());
                            assert(handed_lists(s) == seq![target_capture] + Seq::<Seq<StmtView>>::empty());
                            assert(handed_lists(after) =~= rewritten_lists(f, handed_lists(s), depth));
                        },
                    }
                },
                AssignView::Simple { .. } => assert(handed_lists(after) =~= rewritten_lists(f, handed_lists(s), depth)),
            }
        },
        _ => assert(handed_lists(after) =~= rewritten_lists(f, handed_lists(s), depth)),
    }
}

} // verus!
