//! Every expression node that the visit of a statement reaches is held in
//! that statement: it lies strictly inside it.

use crate::model::{
    ArmView, AssignView, CaseView, CompoundView, ElementView, ElseView, ExprView, HeaderView, IfView,
    LoopView, NodeView, SelectView, StmtView, SwitchKindView, SwitchView, ValueView,
};
use crate::walk::{
    arm_walk, arms_walk, assign_walk, case_walk, cases_walk, children_walk, element_walk,
    elements_walk, else_walk, exprs_walk, header_walk, if_walk, loop_walk, node_walk, nodes_walk,
    opt_expr_walk, opt_node_walk, select_walk, stmt_walk, stmts_walk, switch_walk, value_walk,
};
use vstd::prelude::*;

verus! {

/// Every node of `xs` lies strictly inside `top`.
pub open spec fn below_all<T>(top: T, xs: Seq<NodeView>) -> bool {
    forall|i: int| 0 <= i < xs.len() ==> decreases_to!(top => #[trigger] xs[i])
}

/// Every node of `xs` is `n` or lies inside it.
pub open spec fn within(n: NodeView, xs: Seq<NodeView>) -> bool {
    forall|i: int| 0 <= i < xs.len() ==> #[trigger] xs[i] == n || decreases_to!(n => xs[i])
}

proof fn lemma_below_empty<T>(top: T)
    ensures
        below_all(top, Seq::empty()),
{
}

proof fn lemma_below_concat<T>(top: T, a: Seq<NodeView>, b: Seq<NodeView>)
    requires
        below_all(top, a),
        below_all(top, b),
    ensures
        below_all(top, a + b),
{
    assert forall|i: int| 0 <= i < (a + b).len() implies decreases_to!(top => #[trigger] (a + b)[i]) by {
        if i < a.len() {
            assert((a + b)[i] == a[i]);
        } else {
            assert((a + b)[i] == b[i - a.len()]);
        }
    }
}

proof fn lemma_below_lift<T, U>(top: T, mid: U, xs: Seq<NodeView>)
    requires
        decreases_to!(top => mid),
        below_all(mid, xs),
    ensures
        below_all(top, xs),
{
    assert forall|i: int| 0 <= i < xs.len() implies decreases_to!(top => #[trigger] xs[i]) by {
        assert(decreases_to!(mid => xs[i]));
    }
}

proof fn lemma_within_lift<T>(top: T, n: NodeView, xs: Seq<NodeView>)
    requires
        decreases_to!(top => n),
        within(n, xs),
    ensures
        below_all(top, xs),
{
    assert forall|i: int| 0 <= i < xs.len() implies decreases_to!(top => #[trigger] xs[i]) by {
        if xs[i] != n {
            assert(decreases_to!(n => xs[i]));
        }
    }
}

/// The walk of a node holds the node, then nodes inside it.
pub proof fn lemma_node_within(n: NodeView)
    ensures
        within(n, node_walk(n)),
    decreases n, 2nat,
{
    let rest = match n {
        NodeView::FunctionLiteral { body, .. } => stmts_walk(body),
        _ => children_walk(n),
    };
    match n {
        NodeView::FunctionLiteral { body, .. } => {
            lemma_stmts_below(body);
            assert(decreases_to!(n => body));
            lemma_below_lift(n, body, rest);
        },
        _ => lemma_children_below(n),
    }
    assert(node_walk(n) == seq![n] + rest);
    assert forall|i: int| 0 <= i < node_walk(n).len() implies #[trigger] node_walk(n)[i] == n || decreases_to!(n => node_walk(n)[i]) by {
        if i > 0 {
            assert(node_walk(n)[i] == rest[i - 1]);
        }
    }
}

proof fn lemma_child_below(n: NodeView, child: NodeView)
    requires
        decreases_to!(n => child),
    ensures
        below_all(n, node_walk(child)),
    decreases child, 3nat,
{
    lemma_node_within(child);
    lemma_within_lift(n, child, node_walk(child));
}

pub proof fn lemma_children_below(n: NodeView)
    ensures
        below_all(n, children_walk(n)),
    decreases n, 1nat,
{
    match n {
        NodeView::CompositeLiteral { elements, .. } => {
            lemma_elements_below(elements);
            lemma_below_lift(n, elements, elements_walk(elements));
        },
        NodeView::Call { callee, arguments } => {
            lemma_child_below(n, *callee);
            lemma_nodes_below(arguments);
            lemma_below_lift(n, arguments, nodes_walk(arguments));
            lemma_below_concat(n, node_walk(*callee), nodes_walk(arguments));
        },
        NodeView::Instantiation { base, .. } => lemma_child_below(n, *base),
        NodeView::Selector { base, .. } => lemma_child_below(n, *base),
        NodeView::TypeAssertion { base, .. } => lemma_child_below(n, *base),
        NodeView::Index { base, index } => {
            lemma_child_below(n, *base);
            lemma_child_below(n, *index);
            lemma_below_concat(n, node_walk(*base), node_walk(*index));
        },
        NodeView::Slice { base, low, high, max } => {
            lemma_child_below(n, *base);
            lemma_opt_node_below(low);
            lemma_opt_node_below(high);
            lemma_opt_node_below(max);
            lemma_below_lift(n, low, opt_node_walk(low));
            lemma_below_lift(n, high, opt_node_walk(high));
            lemma_below_lift(n, max, opt_node_walk(max));
            lemma_below_concat(n, node_walk(*base), opt_node_walk(low));
            lemma_below_concat(n, node_walk(*base) + opt_node_walk(low), opt_node_walk(high));
            lemma_below_concat(n, node_walk(*base) + opt_node_walk(low) + opt_node_walk(high), opt_node_walk(max));
        },
        NodeView::Unary { operand, .. } => lemma_child_below(n, *operand),
        NodeView::Conversion { operand, .. } => lemma_child_below(n, *operand),
        NodeView::AddressOf(operand) => lemma_child_below(n, *operand),
        NodeView::Dereference(operand) => lemma_child_below(n, *operand),
        NodeView::Spread(operand) => lemma_child_below(n, *operand),
        NodeView::Binary { left, right, .. } => {
            lemma_child_below(n, *left);
            lemma_child_below(n, *right);
            lemma_below_concat(n, node_walk(*left), node_walk(*right));
        },
        _ => lemma_below_empty(n),
    }
}

proof fn lemma_opt_node_below(o: Option<Box<NodeView>>)
    ensures
        below_all(o, opt_node_walk(o)),
    decreases o, 0nat,
{
    match o {
        Some(b) => {
            lemma_node_within(*b);
            assert(decreases_to!(o => *b));
            lemma_within_lift(o, *b, node_walk(*b));
        },
        None => lemma_below_empty(o),
    }
}

proof fn lemma_element_below(e: ElementView)
    ensures
        below_all(e, element_walk(e)),
    decreases e, 0nat,
{
    lemma_node_within(e.value);
    lemma_within_lift(e, e.value, node_walk(e.value));
    match e.key {
        Some(k) => {
            lemma_node_within(k);
            assert(decreases_to!(e => e.key));
            lemma_within_lift(e, k, node_walk(k));
            lemma_below_concat(e, node_walk(k), node_walk(e.value));
        },
        None => {},
    }
}

proof fn lemma_elements_below(es: Seq<ElementView>)
    ensures
        below_all(es, elements_walk(es)),
    decreases es, 0nat,
{
    if es.len() > 0 {
        let prefix = es.drop_last();
        let last = es.last();
        assert(decreases_to!(es => prefix));
        assert(decreases_to!(es => es[es.len() - 1]));
        lemma_elements_below(prefix);
        lemma_element_below(last);
        lemma_below_lift(es, prefix, elements_walk(prefix));
        lemma_below_lift(es, last, element_walk(last));
        lemma_below_concat(es, elements_walk(prefix), element_walk(last));
    } else {
        lemma_below_empty(es);
    }
}

proof fn lemma_nodes_below(ns: Seq<NodeView>)
    ensures
        below_all(ns, nodes_walk(ns)),
    decreases ns, 0nat,
{
    if ns.len() > 0 {
        let prefix = ns.drop_last();
        let last = ns.last();
        assert(decreases_to!(ns => prefix));
        assert(decreases_to!(ns => ns[ns.len() - 1]));
        lemma_nodes_below(prefix);
        lemma_node_within(last);
        lemma_below_lift(ns, prefix, nodes_walk(prefix));
        lemma_within_lift(ns, last, node_walk(last));
        lemma_below_concat(ns, nodes_walk(prefix), node_walk(last));
    } else {
        lemma_below_empty(ns);
    }
}

/// The nodes of an expression lie inside it.
proof fn lemma_expr_below(e: ExprView)
    ensures
        below_all(e, node_walk(e.node)),
    decreases e, 3nat,
{
    lemma_node_within(e.node);
    lemma_within_lift(e, e.node, node_walk(e.node));
}

proof fn lemma_exprs_below(es: Seq<ExprView>)
    ensures
        below_all(es, exprs_walk(es)),
    decreases es, 0nat,
{
    if es.len() > 0 {
        let prefix = es.drop_last();
        let last = es.last();
        assert(decreases_to!(es => prefix));
        assert(decreases_to!(es => es[es.len() - 1]));
        lemma_exprs_below(prefix);
        lemma_expr_below(last);
        lemma_below_lift(es, prefix, exprs_walk(prefix));
        lemma_below_lift(es, last, node_walk(last.node));
        lemma_below_concat(es, exprs_walk(prefix), node_walk(last.node));
    } else {
        lemma_below_empty(es);
    }
}

proof fn lemma_opt_expr_below(o: Option<ExprView>)
    ensures
        below_all(o, opt_expr_walk(o)),
    decreases o, 0nat,
{
    match o {
        Some(e) => {
            lemma_expr_below(e);
            assert(decreases_to!(o => e));
            lemma_below_lift(o, e, node_walk(e.node));
        },
        None => lemma_below_empty(o),
    }
}

pub proof fn lemma_stmts_below(ss: Seq<StmtView>)
    ensures
        below_all(ss, stmts_walk(ss)),
    decreases ss, 0nat,
{
    if ss.len() > 0 {
        let prefix = ss.drop_last();
        let last = ss.last();
        assert(decreases_to!(ss => prefix));
        assert(decreases_to!(ss => ss[ss.len() - 1]));
        lemma_stmts_below(prefix);
        law_visited_nodes_are_held_in_the_statement(last);
        lemma_below_lift(ss, prefix, stmts_walk(prefix));
        lemma_below_lift(ss, last, stmt_walk(last));
        lemma_below_concat(ss, stmts_walk(prefix), stmt_walk(last));
    } else {
        lemma_below_empty(ss);
    }
}

proof fn lemma_value_below(v: ValueView)
    ensures
        below_all(v, value_walk(v)),
    decreases v, 0nat,
{
    lemma_stmts_below(v.setup);
    lemma_expr_below(v.expression);
    lemma_below_lift(v, v.setup, stmts_walk(v.setup));
    lemma_below_lift(v, v.expression, node_walk(v.expression.node));
    lemma_below_concat(v, stmts_walk(v.setup), node_walk(v.expression.node));
}

proof fn lemma_if_below(plan: IfView)
    ensures
        below_all(plan, if_walk(plan)),
    decreases plan, 0nat,
{
    let init = match plan.initializer {
        Some(d) => node_walk(d.value.node),
        None => Seq::empty(),
    };
    match plan.initializer {
        Some(d) => {
            lemma_expr_below(d.value);
            assert(decreases_to!(plan => plan.initializer));
            assert(decreases_to!(plan.initializer => d));
            assert(decreases_to!(d => d.value));
            lemma_below_lift(plan, d.value, init);
        },
        None => lemma_below_empty(plan),
    }
    lemma_stmts_below(plan.condition_setup);
    lemma_below_lift(plan, plan.condition_setup, stmts_walk(plan.condition_setup));
    lemma_expr_below(plan.condition);
    lemma_below_lift(plan, plan.condition, node_walk(plan.condition.node));
    lemma_stmts_below(plan.then_body);
    lemma_below_lift(plan, plan.then_body, stmts_walk(plan.then_body));
    lemma_else_below(plan.else_arm);
    lemma_below_lift(plan, plan.else_arm, else_walk(plan.else_arm));
    let a = stmts_walk(plan.condition_setup);
    lemma_below_concat(plan, a, init);
    lemma_below_concat(plan, a + init, node_walk(plan.condition.node));
    lemma_below_concat(plan, a + init + node_walk(plan.condition.node), stmts_walk(plan.then_body));
    lemma_below_concat(
        plan,
        a + init + node_walk(plan.condition.node) + stmts_walk(plan.then_body),
        else_walk(plan.else_arm),
    );
}

proof fn lemma_else_below(arm: ElseView)
    ensures
        below_all(arm, else_walk(arm)),
    decreases arm, 0nat,
{
    match arm {
        ElseView::NoElse => lemma_below_empty(arm),
        ElseView::ElseIf(inner) => {
            lemma_if_below(*inner);
            assert(decreases_to!(arm => *inner));
            lemma_below_lift(arm, *inner, if_walk(*inner));
        },
        ElseView::Else { body, .. } => {
            lemma_stmts_below(body);
            lemma_below_lift(arm, body, stmts_walk(body));
        },
    }
}

proof fn lemma_header_below(header: HeaderView)
    ensures
        below_all(header, header_walk(header)),
    decreases header, 0nat,
{
    match header {
        HeaderView::Infinite => lemma_below_empty(header),
        HeaderView::While(c) => {
            lemma_expr_below(c);
            lemma_below_lift(header, c, node_walk(c.node));
        },
        HeaderView::Range { iterable, .. } => {
            lemma_expr_below(iterable);
            lemma_below_lift(header, iterable, node_walk(iterable.node));
        },
        HeaderView::Counted { start, condition, .. } => {
            lemma_expr_below(start);
            lemma_below_lift(header, start, node_walk(start.node));
            lemma_opt_expr_below(condition);
            lemma_below_lift(header, condition, opt_expr_walk(condition));
            lemma_below_concat(header, node_walk(start.node), opt_expr_walk(condition));
        },
    }
}

proof fn lemma_arm_below(arm: ArmView)
    ensures
        below_all(arm, arm_walk(arm)),
    decreases arm, 0nat,
{
    match arm {
        ArmView::Receive { channel, body, .. } => {
            lemma_expr_below(channel);
            lemma_below_lift(arm, channel, node_walk(channel.node));
            lemma_stmts_below(body);
            lemma_below_lift(arm, body, stmts_walk(body));
            lemma_below_concat(arm, node_walk(channel.node), stmts_walk(body));
        },
        ArmView::Send { channel, value, body } => {
            lemma_expr_below(channel);
            lemma_below_lift(arm, channel, node_walk(channel.node));
            lemma_expr_below(value);
            lemma_below_lift(arm, value, node_walk(value.node));
            lemma_stmts_below(body);
            lemma_below_lift(arm, body, stmts_walk(body));
            lemma_below_concat(arm, node_walk(channel.node), node_walk(value.node));
            lemma_below_concat(arm, node_walk(channel.node) + node_walk(value.node), stmts_walk(body));
        },
        ArmView::Default { body } => {
            lemma_stmts_below(body);
            lemma_below_lift(arm, body, stmts_walk(body));
        },
    }
}

proof fn lemma_arms_below(arms: Seq<ArmView>)
    ensures
        below_all(arms, arms_walk(arms)),
    decreases arms, 0nat,
{
    if arms.len() > 0 {
        let prefix = arms.drop_last();
        let last = arms.last();
        assert(decreases_to!(arms => prefix));
        assert(decreases_to!(arms => arms[arms.len() - 1]));
        lemma_arms_below(prefix);
        lemma_arm_below(last);
        lemma_below_lift(arms, prefix, arms_walk(prefix));
        lemma_below_lift(arms, last, arm_walk(last));
        lemma_below_concat(arms, arms_walk(prefix), arm_walk(last));
    } else {
        lemma_below_empty(arms);
    }
}

proof fn lemma_case_below(case: CaseView)
    ensures
        below_all(case, case_walk(case)),
    decreases case, 0nat,
{
    lemma_exprs_below(case.labels);
    lemma_below_lift(case, case.labels, exprs_walk(case.labels));
    lemma_stmts_below(case.body);
    lemma_below_lift(case, case.body, stmts_walk(case.body));
    lemma_below_concat(case, exprs_walk(case.labels), stmts_walk(case.body));
}

proof fn lemma_cases_below(cases: Seq<CaseView>)
    ensures
        below_all(cases, cases_walk(cases)),
    decreases cases, 0nat,
{
    if cases.len() > 0 {
        let prefix = cases.drop_last();
        let last = cases.last();
        assert(decreases_to!(cases => prefix));
        assert(decreases_to!(cases => cases[cases.len() - 1]));
        lemma_cases_below(prefix);
        lemma_case_below(last);
        lemma_below_lift(cases, prefix, cases_walk(prefix));
        lemma_below_lift(cases, last, case_walk(last));
        lemma_below_concat(cases, cases_walk(prefix), case_walk(last));
    } else {
        lemma_below_empty(cases);
    }
}

proof fn lemma_assign_below(form: AssignView)
    ensures
        below_all(form, assign_walk(form)),
    decreases form, 0nat,
{
    match form {
        AssignView::Compound { target_capture, target, kind } => {
            lemma_stmts_below(target_capture);
            lemma_below_lift(form, target_capture, stmts_walk(target_capture));
            lemma_expr_below(target);
            lemma_below_lift(form, target, node_walk(target.node));
            lemma_below_concat(form, stmts_walk(target_capture), node_walk(target.node));
            let tail = match kind {
                CompoundView::OpAssign { rhs, pinned_left, .. } => value_walk(rhs) + opt_expr_walk(pinned_left),
                _ => Seq::empty(),
            };
            match kind {
                CompoundView::OpAssign { rhs, pinned_left, .. } => {
                    assert(decreases_to!(form => kind));
                    lemma_value_below(rhs);
                    lemma_below_lift(form, rhs, value_walk(rhs));
                    lemma_opt_expr_below(pinned_left);
                    lemma_below_lift(form, pinned_left, opt_expr_walk(pinned_left));
                    lemma_below_concat(form, value_walk(rhs), opt_expr_walk(pinned_left));
                },
                _ => lemma_below_empty(form),
            }
            lemma_below_concat(form, stmts_walk(target_capture) + node_walk(target.node), tail);
        },
        AssignView::Simple { target_capture, target, value } => {
            lemma_stmts_below(target_capture);
            lemma_below_lift(form, target_capture, stmts_walk(target_capture));
            lemma_expr_below(target);
            lemma_below_lift(form, target, node_walk(target.node));
            lemma_value_below(value);
            lemma_below_lift(form, value, value_walk(value));
            lemma_below_concat(form, stmts_walk(target_capture), node_walk(target.node));
            lemma_below_concat(form, stmts_walk(target_capture) + node_walk(target.node), value_walk(value));
        },
    }
}

proof fn lemma_loop_below(plan: LoopView)
    ensures
        below_all(plan, loop_walk(plan)),
    decreases plan, 0nat,
{
    lemma_stmts_below(plan.prologue);
    lemma_below_lift(plan, plan.prologue, stmts_walk(plan.prologue));
    lemma_header_below(plan.header);
    lemma_below_lift(plan, plan.header, header_walk(plan.header));
    lemma_stmts_below(plan.body);
    lemma_below_lift(plan, plan.body, stmts_walk(plan.body));
    lemma_below_concat(plan, stmts_walk(plan.prologue), header_walk(plan.header));
    lemma_below_concat(plan, stmts_walk(plan.prologue) + header_walk(plan.header), stmts_walk(plan.body));
}

proof fn lemma_select_below(plan: SelectView)
    ensures
        below_all(plan, select_walk(plan)),
    decreases plan, 0nat,
{
    lemma_stmts_below(plan.setup);
    lemma_below_lift(plan, plan.setup, stmts_walk(plan.setup));
    lemma_arms_below(plan.arms);
    lemma_below_lift(plan, plan.arms, arms_walk(plan.arms));
    lemma_stmts_below(plan.postlude);
    lemma_below_lift(plan, plan.postlude, stmts_walk(plan.postlude));
    lemma_below_concat(plan, stmts_walk(plan.setup), arms_walk(plan.arms));
    lemma_below_concat(plan, stmts_walk(plan.setup) + arms_walk(plan.arms), stmts_walk(plan.postlude));
}

proof fn lemma_switch_below(plan: SwitchView)
    ensures
        below_all(plan, switch_walk(plan)),
    decreases plan, 0nat,
{
    let head = match plan.kind {
        SwitchKindView::Conditional => Seq::empty(),
        SwitchKindView::Value { subject } => node_walk(subject.node),
        SwitchKindView::Type { subject, .. } => node_walk(subject.node),
    };
    match plan.kind {
        SwitchKindView::Conditional => lemma_below_empty(plan),
        SwitchKindView::Value { subject } => {
            assert(decreases_to!(plan => plan.kind));
            lemma_expr_below(subject);
            lemma_below_lift(plan, subject, head);
        },
        SwitchKindView::Type { subject, .. } => {
            assert(decreases_to!(plan => plan.kind));
            lemma_expr_below(subject);
            lemma_below_lift(plan, subject, head);
        },
    }
    let default_part = match plan.default {
        Some(body) => stmts_walk(body),
        None => Seq::empty(),
    };
    match plan.default {
        Some(body) => {
            assert(decreases_to!(plan => plan.default));
            lemma_stmts_below(body);
            lemma_below_lift(plan, body, default_part);
        },
        None => lemma_below_empty(plan),
    }
    lemma_cases_below(plan.cases);
    lemma_below_lift(plan, plan.cases, cases_walk(plan.cases));
    lemma_stmts_below(plan.postlude);
    lemma_below_lift(plan, plan.postlude, stmts_walk(plan.postlude));
    lemma_below_concat(plan, head, cases_walk(plan.cases));
    lemma_below_concat(plan, head + cases_walk(plan.cases), default_part);
    lemma_below_concat(plan, head + cases_walk(plan.cases) + default_part, stmts_walk(plan.postlude));
}

/// Every expression node that visiting a statement reaches (which is what
/// `visit_expressions` hands out, in that order) lies strictly inside the
/// statement: the visit never leaves it, and never reaches the statement
/// itself.
pub proof fn law_visited_nodes_are_held_in_the_statement(s: StmtView)
    ensures
        below_all(s, stmt_walk(s)),
    decreases s, 1nat,
{
    match s {
        StmtView::If(plan) => {
            lemma_if_below(plan);
            lemma_below_lift(s, plan, if_walk(plan));
        },
        StmtView::Loop(plan) => {
            lemma_loop_below(plan);
            lemma_below_lift(s, plan, loop_walk(plan));
        },
        StmtView::Block(body) => {
            lemma_stmts_below(body);
            lemma_below_lift(s, body, stmts_walk(body));
        },
        StmtView::Body(body) => {
            lemma_stmts_below(body);
            lemma_below_lift(s, body, stmts_walk(body));
        },
        StmtView::WhileLet(body) => {
            lemma_stmts_below(body);
            lemma_below_lift(s, body, stmts_walk(body));
        },
        StmtView::Const(c) => {
            assert(decreases_to!(s => c));
            assert(decreases_to!(c => c.value));
            lemma_expr_below(c.value);
            lemma_below_lift(s, c.value, node_walk(c.value.node));
        },
        StmtView::Return(values) => {
            lemma_exprs_below(values);
            lemma_below_lift(s, values, exprs_walk(values));
        },
        StmtView::Assign(form) => {
            lemma_assign_below(form);
            lemma_below_lift(s, form, assign_walk(form));
        },
        StmtView::Async { call, .. } => {
            lemma_expr_below(call);
            lemma_below_lift(s, call, node_walk(call.node));
        },
        StmtView::Select(plan) => {
            lemma_select_below(plan);
            lemma_below_lift(s, plan, select_walk(plan));
        },
        StmtView::Switch(plan) => {
            lemma_switch_below(plan);
            lemma_below_lift(s, plan, switch_walk(plan));
        },
        StmtView::Define(d) => {
            assert(decreases_to!(s => d));
            assert(decreases_to!(d => d.value));
            lemma_expr_below(d.value);
            lemma_below_lift(s, d.value, node_walk(d.value.node));
        },
        StmtView::AssignMany { targets, value } => {
            lemma_exprs_below(targets);
            lemma_below_lift(s, targets, exprs_walk(targets));
            lemma_expr_below(value);
            lemma_below_lift(s, value, node_walk(value.node));
            lemma_below_concat(s, exprs_walk(targets), node_walk(value.node));
        },
        StmtView::VarDecl { value, .. } => {
            lemma_opt_expr_below(value);
            lemma_below_lift(s, value, opt_expr_walk(value));
        },
        StmtView::Discard(e) => {
            lemma_expr_below(e);
            lemma_below_lift(s, e, node_walk(e.node));
        },
        StmtView::ExpressionStatement { expression, .. } => {
            lemma_expr_below(expression);
            lemma_below_lift(s, expression, node_walk(expression.node));
        },
        StmtView::Directed { inner, .. } => {
            law_visited_nodes_are_held_in_the_statement(*inner);
            assert(decreases_to!(s => *inner));
            lemma_below_lift(s, *inner, stmt_walk(*inner));
        },
        _ => lemma_below_empty(s),
    }
}

/// What the visit of a statement reaches, by kind: a definition's value as
/// a node walk of its own, a directed statement's inner statement, and
/// nothing for `break`, `continue` and an unreachable panic.
pub proof fn law_visit_by_kind(s: StmtView)
    ensures
        s matches StmtView::Define(d) ==> stmt_walk(s) == node_walk(d.value.node),
        s matches StmtView::Directed { inner, .. } ==> stmt_walk(s) == stmt_walk(*inner),
        (s is Break || s is Continue || s is UnreachablePanic) ==> stmt_walk(s).len() == 0,
{
}

} // verus!
