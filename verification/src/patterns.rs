//! Small pieces that pattern lowering assembles statements from: the unit
//! value, an `if` over a paired test, an `if`/`else if` chain, a `break` out
//! of the current loop, and the bindings an arm makes.

use crate::bodies::{ElseArm, IfPlan, LoopId, LoopTransfer, LoweredBlock, LoweredStatement, Definition};
use crate::model::{DefView, ElseView, ExprView, IfView, NodeView, StmtView, TransferView};
use crate::values::{plain_expr, GoExpression};
use crate::bodies::block_renders_empty;
use vstd::prelude::*;
use vstd::string::StrSliceExecFns;

verus! {

/// The variable a match subject is read through: an existing variable, or a
/// fresh one for a composite subject, whose declaration waits until the
/// caller knows whether the arms read the variable.
pub enum ResolvedSubject {
    Existing { var: String },
    Composite { var: String, expression: GoExpression },
}

impl ResolvedSubject {
    /// The variable the arms read the subject through.
    pub fn var(&self) -> (v: &str)
        ensures
            v@ == match self {
                ResolvedSubject::Existing { var } => var@,
                ResolvedSubject::Composite { var, .. } => var@,
            },
    {
        match self {
            ResolvedSubject::Existing { var } => var.as_str(),
            ResolvedSubject::Composite { var, .. } => var.as_str(),
        }
    }

    /// Declares a composite subject: `var := expression` when the arms read
    /// `var` (`references`), `_ = expression` when they do not. An existing
    /// variable needs no declaration.
    pub fn push_declaration(self, statements: &mut Vec<LoweredStatement>, references: bool)
        ensures
            match self {
                ResolvedSubject::Existing { .. } => final(statements)@ == old(statements)@,
                ResolvedSubject::Composite { var, expression } => {
                    &&& final(statements)@.len() == old(statements)@.len() + 1
                    &&& final(statements)@.drop_last() == old(statements)@
                    &&& final(statements)@.last()@ == if references {
                        StmtView::Define(DefView { names: seq![var@], value: expression@ })
                    } else {
                        StmtView::Discard(expression@)
                    }
                },
            },
    {
        if let ResolvedSubject::Composite { var, expression } = self {
            if references {
                statements.push(crate::bodies::define(var, expression));
            } else {
                statements.push(crate::bodies::discard(expression));
            }
            proof {
                assert(statements@.drop_last() =~= old(statements)@);
            }
        }
    }
}

/// `struct{}{}`, the value of a unit.
pub fn unit_value() -> (e: GoExpression)
    ensures
        e@ == plain_expr(
            NodeView::CompositeLiteral {
                go_type: Some("struct{}"@),
                elements: Seq::empty(),
                layout: crate::go_expression::CompositeLayout::Inline { padded: true },
            },
        ),
{
    GoExpression::empty_composite("struct{}".to_string())
}

/// The test of a paired value: an optional `v, ok := call` initializer and
/// the condition over it.
pub struct PairCondition {
    pub initializer: Option<Definition>,
    pub condition: GoExpression,
}

pub open spec fn opt_def(d: Option<Definition>) -> Option<DefView> {
    match d {
        Some(d) => Some(d@),
        None => None,
    }
}

/// `if [initializer;] condition { then } else ..` for a paired test.
pub fn pair_if(test: PairCondition, then_body: LoweredBlock, else_arm: ElseArm) -> (plan: IfPlan)
    ensures
        plan@ == (IfView {
            condition_setup: Seq::empty(),
            initializer: opt_def(test.initializer),
            condition: test.condition@,
            then_body: then_body@,
            else_arm: else_arm.view_else(),
        }),
{
    let ghost tv = test;
    let PairCondition { initializer, condition } = test;
    let plan = IfPlan { condition_setup: Vec::new(), initializer, condition, then_body, else_arm };
    assert(crate::model::stmt_list_view(&plan.condition_setup) =~= Seq::<StmtView>::empty());
    assert(plan@.initializer == opt_def(tv.initializer));
    plan
}

pub open spec fn piece_views(pieces: Seq<(GoExpression, LoweredBlock)>) -> Seq<(ExprView, Seq<StmtView>)> {
    Seq::new(pieces.len(), |i: int| (pieces[i].0@, pieces[i].1@))
}

/// The `else` arm of the chain from piece `from` on: `else if` for each
/// piece, then the terminal block, dropped where it writes nothing.
pub open spec fn chain_else(pieces: Seq<(ExprView, Seq<StmtView>)>, from: int, terminal: Seq<StmtView>) -> ElseView
    decreases pieces.len() - from,
{
    if from >= pieces.len() || from < 0 {
        if block_renders_empty(terminal) {
            ElseView::NoElse
        } else {
            ElseView::Else { body: terminal, inline: false }
        }
    } else {
        ElseView::ElseIf(Box::new(chain_if(pieces, from, terminal)))
    }
}

/// The `if` for piece `from`, with the rest of the chain as its `else`.
pub open spec fn chain_if(pieces: Seq<(ExprView, Seq<StmtView>)>, from: int, terminal: Seq<StmtView>) -> IfView
    decreases pieces.len() - from, 0nat,
{
    IfView {
        condition_setup: Seq::empty(),
        initializer: None,
        condition: pieces[from].0,
        then_body: pieces[from].1,
        else_arm: if 0 <= from < pieces.len() {
            chain_else(pieces, from + 1, terminal)
        } else {
            ElseView::NoElse
        },
    }
}

/// The `(condition, body)` of each `if` along the `else if` chain, in order.
pub open spec fn chain_steps(plan: IfView) -> Seq<(ExprView, Seq<StmtView>)>
    decreases plan,
{
    seq![(plan.condition, plan.then_body)] + match plan.else_arm {
        ElseView::ElseIf(inner) => chain_steps(*inner),
        _ => Seq::empty(),
    }
}

/// The `else` that ends the chain.
pub open spec fn chain_end(plan: IfView) -> ElseView
    decreases plan,
{
    match plan.else_arm {
        ElseView::ElseIf(inner) => chain_end(*inner),
        other => other,
    }
}

/// No `if` along the chain has setup statements or an initializer.
pub open spec fn chain_is_plain(plan: IfView) -> bool
    decreases plan,
{
    &&& plan.condition_setup.len() == 0
    &&& plan.initializer is None
    &&& match plan.else_arm {
        ElseView::ElseIf(inner) => chain_is_plain(*inner),
        _ => true,
    }
}

proof fn lemma_chain_from(pieces: Seq<(ExprView, Seq<StmtView>)>, from: int, terminal: Seq<StmtView>)
    requires
        0 <= from < pieces.len(),
    ensures
        chain_steps(chain_if(pieces, from, terminal)) == pieces.subrange(from, pieces.len() as int),
        chain_end(chain_if(pieces, from, terminal)) == (if block_renders_empty(terminal) {
            ElseView::NoElse
        } else {
            ElseView::Else { body: terminal, inline: false }
        }),
        chain_is_plain(chain_if(pieces, from, terminal)),
    decreases pieces.len() - from,
{
    let plan = chain_if(pieces, from, terminal);
    if from + 1 < pieces.len() {
        lemma_chain_from(pieces, from + 1, terminal);
        assert(plan.else_arm == ElseView::ElseIf(Box::new(chain_if(pieces, from + 1, terminal))));
        assert(seq![pieces[from]] + pieces.subrange(from + 1, pieces.len() as int) =~= pieces.subrange(
            from,
            pieces.len() as int,
        ));
    } else {
        assert(seq![pieces[from]] + Seq::empty() =~= pieces.subrange(from, pieces.len() as int));
    }
}

/// The chain that `assemble_if_else_chain` builds tests the pieces'
/// conditions in their order, each guarding its own body, with no setup or
/// initializer anywhere, and ends in the terminal block, or in no `else`
/// when the terminal block writes nothing; this holds for every number of
/// pieces.
pub proof fn law_chain_keeps_the_pieces_in_order(pieces: Seq<(ExprView, Seq<StmtView>)>, terminal: Seq<StmtView>)
    requires
        pieces.len() > 0,
    ensures
        chain_steps(chain_if(pieces, 0, terminal)) == pieces,
        chain_end(chain_if(pieces, 0, terminal)) == (if block_renders_empty(terminal) {
            ElseView::NoElse
        } else {
            ElseView::Else { body: terminal, inline: false }
        }),
        chain_is_plain(chain_if(pieces, 0, terminal)),
{
    lemma_chain_from(pieces, 0, terminal);
    assert(pieces.subrange(0, pieces.len() as int) =~= pieces);
}

/// Folds the `(condition, body)` pieces and a terminal block into one
/// `if`/`else if`/`else` statement, built from the back; the terminal
/// block is dropped where it writes nothing.
pub fn assemble_if_else_chain(pieces: Vec<(GoExpression, LoweredBlock)>, terminal: LoweredBlock) -> (s: LoweredStatement)
    requires
        pieces@.len() > 0,
    ensures
        s@ == StmtView::If(chain_if(piece_views(pieces@), 0, terminal@)),
{
    let ghost pv = piece_views(pieces@);
    let ghost tv = terminal@;
    let mut pieces = pieces;
    let mut else_arm = ElseArm::from_body(terminal, false);
    assert(else_arm.view_else() == chain_else(pv, pv.len() as int, tv));
    while pieces.len() > 1
        invariant
            1 <= pieces@.len() <= pv.len(),
            forall|i: int| 0 <= i < pieces@.len() ==> (#[trigger] pieces@[i]).0@ == pv[i].0 && pieces@[i].1@ == pv[i].1,
            else_arm.view_else() == chain_else(pv, pieces@.len() as int, tv),
        decreases pieces@.len(),
    {
        let n = pieces.len();
        let (condition, then_body) = match pieces.pop() {
            Some(piece) => piece,
            None => {
                return LoweredStatement::UnreachablePanic;
            },
        };
        let plan = IfPlan::plain(condition, then_body, else_arm);
        assert(plan@ == chain_if(pv, n - 1, tv));
        else_arm = ElseArm::ElseIf(Box::new(plan));
    }
    let (condition, then_body) = match pieces.pop() {
        Some(piece) => piece,
        None => {
            return LoweredStatement::UnreachablePanic;
        },
    };
    let plan = IfPlan::plain(condition, then_body, else_arm);
    assert(plan@ == chain_if(pv, 0, tv));
    LoweredStatement::If(plan)
}

/// `break`, aimed at the current source loop where there is one.
pub fn loop_break(current_loop: Option<LoopId>) -> (s: LoweredStatement)
    ensures
        s@ == StmtView::Break(
            match current_loop {
                Some(id) => TransferView::Source(id),
                None => TransferView::Unlabeled,
            },
        ),
{
    LoweredStatement::Break(
        match current_loop {
            Some(id) => LoopTransfer::Source(id),
            None => LoopTransfer::Unlabeled,
        },
    )
}

/// What an arm binds a name to: another name, or a copy of a value.
pub enum ArmBinding<'a> {
    Alias { name: &'a str, go_name: &'a str },
    Copy { name: &'a str, value: &'a GoExpression },
}

impl<'a> ArmBinding<'a> {
    /// The name bound to the Go name, where both are there.
    pub fn alias(name: Option<&'a str>, go_name: Option<&'a str>) -> (b: Option<Self>)
        ensures
            match (name, go_name) {
                (Some(n), Some(g)) => b == Some(ArmBinding::Alias { name: n, go_name: g }),
                _ => b is None,
            },
    {
        match (name, go_name) {
            (Some(name), Some(go_name)) => Some(ArmBinding::Alias { name, go_name }),
            _ => None,
        }
    }

    /// The name bound to a copy of the value, where both are there.
    pub fn copy(name: Option<&'a str>, value: Option<&'a GoExpression>) -> (b: Option<Self>)
        ensures
            match (name, value) {
                (Some(n), Some(v)) => b == Some(ArmBinding::Copy { name: n, value: v }),
                _ => b is None,
            },
    {
        match (name, value) {
            (Some(name), Some(value)) => Some(ArmBinding::Copy { name, value }),
            _ => None,
        }
    }
}

} // verus!

verus! {

/// The pieces of `s` between dots, the way splitting at each `.` cuts them,
/// empty pieces included.
pub open spec fn dot_segments(s: Seq<char>) -> Seq<Seq<char>>
    decreases s.len(),
{
    if s.len() == 0 {
        seq![Seq::empty()]
    } else {
        let rest = dot_segments(s.drop_last());
        if s.last() == '.' {
            rest.push(Seq::empty())
        } else {
            rest.update(rest.len() - 1, rest.last().push(s.last()))
        }
    }
}

pub proof fn lemma_dot_segments_nonempty(s: Seq<char>)
    ensures
        dot_segments(s).len() >= 1,
    decreases s.len(),
{
    if s.len() > 0 {
        lemma_dot_segments_nonempty(s.drop_last());
    }
}

/// `s` is a dotted path of Go names: at least one dot, and a plain name
/// between each pair of dots.
pub open spec fn is_field_path_spec(s: Seq<char>) -> bool {
    let segments = dot_segments(s);
    &&& segments.len() > 1
    &&& forall|i: int| 0 <= i < segments.len() ==> crate::text::is_plain_identifier(#[trigger] segments[i])
}

pub proof fn lemma_plain_identifier_push(x: Seq<char>, c: char)
    ensures
        crate::text::is_plain_identifier(x.push(c)) == if x.len() == 0 {
            crate::text::starts_name(c)
        } else {
            crate::text::is_plain_identifier(x) && crate::text::continues_name(c)
        },
{
    let y = x.push(c);
    if x.len() > 0 {
        assert(y[0] == x[0]);
        if crate::text::is_plain_identifier(y) {
            assert forall|i: int| 1 <= i < x.len() implies crate::text::continues_name(#[trigger] x[i]) by {
                assert(y[i] == x[i]);
            }
            assert(y[x.len() as int] == c);
        }
        if crate::text::is_plain_identifier(x) && crate::text::continues_name(c) {
            assert forall|i: int| 1 <= i < y.len() implies crate::text::continues_name(#[trigger] y[i]) by {
                if i < x.len() {
                    assert(y[i] == x[i]);
                }
            }
        }
    } else {
        assert(y =~= seq![c]);
    }
}

/// Whether `rendered` is a dotted path of Go names, such as `a.b.c`.
pub fn is_field_path(rendered: &str) -> (r: bool)
    ensures
        r == is_field_path_spec(rendered@),
{
    let n = rendered.unicode_len();
    let ghost s = rendered@;
    let mut all_ok = true;
    let mut saw_dot = false;
    let mut current_len: usize = 0;
    let mut current_ok = false;
    let mut i: usize = 0;
    assert(s.take(0) =~= Seq::<char>::empty());
    while i < n
        invariant
            n == s.len(),
            s == rendered@,
            i <= n,
            current_len <= i,
            ({
                let segments = dot_segments(s.take(i as int));
                &&& segments.len() >= 1
                &&& all_ok == forall|j: int| 0 <= j < segments.len() - 1 ==> crate::text::is_plain_identifier(#[trigger] segments[j])
                &&& saw_dot == (segments.len() > 1)
                &&& current_len == segments.last().len()
                &&& current_ok == crate::text::is_plain_identifier(segments.last())
            }),
        decreases n - i,
    {
        let c = rendered.get_char(i);
        let ghost prefix = s.take(i as int);
        let ghost before = dot_segments(prefix);
        proof {
            assert(s.take(i + 1).drop_last() =~= prefix);
            assert(s.take(i + 1).last() == c);
        }
        if c == '.' {
            proof {
                let after = dot_segments(s.take(i + 1));
                assert(after == before.push(Seq::empty()));
                assert forall|j: int| 0 <= j < after.len() - 1 implies after[j] == before[j] by {}
            }
            all_ok = all_ok && current_ok;
            saw_dot = true;
            current_len = 0;
            current_ok = false;
        } else {
            proof {
                let after = dot_segments(s.take(i + 1));
                assert(after == before.update(before.len() - 1, before.last().push(c)));
                lemma_plain_identifier_push(before.last(), c);
                assert forall|j: int| 0 <= j < after.len() - 1 implies after[j] == before[j] by {}
            }
            if current_len == 0 {
                current_ok = crate::text::char_is_alphabetic(c) || c == '_';
            } else {
                current_ok = current_ok && (crate::text::char_is_alphanumeric(c) || c == '_');
            }
            current_len = current_len + 1;
        }
        i = i + 1;
    }
    proof {
        assert(s.take(n as int) =~= s);
        let segments = dot_segments(s);
        if saw_dot && all_ok && current_ok {
            assert forall|j: int| 0 <= j < segments.len() implies crate::text::is_plain_identifier(#[trigger] segments[j]) by {
                if j < segments.len() - 1 {
                } else {
                    assert(segments[j] == segments.last());
                }
            }
        }
    }
    saw_dot && all_ok && current_ok
}

} // verus!
