//! Properties that hold across the operations of the library.

use crate::cleanup::{
    drop_empty_else_if, drop_empty_else_spec, fold_compound_spec, unwrap_if_spec,
    unwrap_terminal_else_spec,
};
use crate::model::{rename_element, rename_node, rename_opt, ElementView, IfView, NodeView, StmtView};
use crate::aliases::inline_name_aliases_from;
use crate::cleanup::{inline_return_aliases_from, NameUses};
use crate::found::found_returned;
use crate::temps::retained;
use vstd::prelude::*;

verus! {

/// Renaming a name to itself leaves every expression as it is.
pub proof fn law_rename_to_itself(node: NodeView, name: Seq<char>)
    ensures
        rename_node(node, name, name) == node,
    decreases node,
{
    match node {
        NodeView::CompositeLiteral { go_type, elements, layout } => {
            assert forall|i: int| 0 <= i < elements.len() implies rename_element(elements[i], name, name)
                == elements[i] by {
                let e = elements[i];
                assert(decreases_to!(node => elements));
                assert(decreases_to!(elements => e));
                law_rename_to_itself(e.value, name);
                match e.key {
                    Some(k) => law_rename_to_itself(k, name),
                    None => {},
                }
            }
            let r = rename_node(node, name, name);
            assert(r->CompositeLiteral_elements =~= elements);
            assert(r->CompositeLiteral_go_type == go_type);
            assert(r->CompositeLiteral_layout == layout);
        },
        NodeView::Call { callee, arguments } => {
            law_rename_to_itself(*callee, name);
            assert forall|i: int| 0 <= i < arguments.len() implies rename_node(arguments[i], name, name)
                == arguments[i] by {
                assert(decreases_to!(node => arguments));
                assert(decreases_to!(arguments => arguments[i]));
                law_rename_to_itself(arguments[i], name);
            }
            assert(rename_node(node, name, name)->Call_arguments =~= arguments);
        },
        NodeView::Instantiation { base, .. } => law_rename_to_itself(*base, name),
        NodeView::Selector { base, .. } => law_rename_to_itself(*base, name),
        NodeView::TypeAssertion { base, .. } => law_rename_to_itself(*base, name),
        NodeView::Index { base, index } => {
            law_rename_to_itself(*base, name);
            law_rename_to_itself(*index, name);
        },
        NodeView::Slice { base, low, high, max } => {
            law_rename_to_itself(*base, name);
            match low {
                Some(b) => law_rename_to_itself(*b, name),
                None => {},
            }
            assert(rename_opt(low, name, name) == low);
            match high {
                Some(b) => law_rename_to_itself(*b, name),
                None => {},
            }
            assert(rename_opt(high, name, name) == high);
            match max {
                Some(b) => law_rename_to_itself(*b, name),
                None => {},
            }
            assert(rename_opt(max, name, name) == max);
        },
        NodeView::Unary { operand, .. } => law_rename_to_itself(*operand, name),
        NodeView::Conversion { operand, .. } => law_rename_to_itself(*operand, name),
        NodeView::AddressOf(operand) => law_rename_to_itself(*operand, name),
        NodeView::Dereference(operand) => law_rename_to_itself(*operand, name),
        NodeView::Spread(operand) => law_rename_to_itself(*operand, name),
        NodeView::Binary { left, right, .. } => {
            law_rename_to_itself(*left, name);
            law_rename_to_itself(*right, name);
        },
        _ => {},
    }
}

/// Folding compound assignments a second time changes nothing.
pub proof fn law_fold_compound_idempotent(s: StmtView)
    ensures
        fold_compound_spec(fold_compound_spec(s)) == fold_compound_spec(s),
{
}

pub proof fn lemma_unwrap_if_idempotent(plan: IfView)
    ensures
        unwrap_if_spec(unwrap_if_spec(plan)) == unwrap_if_spec(plan),
    decreases plan,
{
    match plan.else_arm {
        crate::model::ElseView::ElseIf(inner) => lemma_unwrap_if_idempotent(*inner),
        _ => {},
    }
}

/// Unwrapping terminal `else`s a second time changes nothing.
pub proof fn law_unwrap_terminal_else_idempotent(s: StmtView)
    ensures
        unwrap_terminal_else_spec(unwrap_terminal_else_spec(s)) == unwrap_terminal_else_spec(s),
    decreases s,
{
    match s {
        StmtView::Directed { inner, .. } => law_unwrap_terminal_else_idempotent(*inner),
        StmtView::If(plan) => lemma_unwrap_if_idempotent(plan),
        _ => {},
    }
}

/// The last `if` along the `else if` chain.
pub open spec fn chain_last(plan: IfView) -> IfView
    decreases plan,
{
    match plan.else_arm {
        crate::model::ElseView::ElseIf(inner) => chain_last(*inner),
        _ => plan,
    }
}

/// The chain with its terminal `else` replaced by `end`.
pub open spec fn with_chain_end(plan: IfView, end: crate::model::ElseView) -> IfView
    decreases plan,
{
    match plan.else_arm {
        crate::model::ElseView::ElseIf(inner) => IfView {
            else_arm: crate::model::ElseView::ElseIf(Box::new(with_chain_end(*inner, end))),
            ..plan
        },
        _ => IfView { else_arm: end, ..plan },
    }
}

/// The terminal `else` after unwrapping: an `else` body becomes inline when
/// it was, or when the last branch diverges, has no initializer and the body
/// declares no names; any other end stays.
pub open spec fn unwrapped_end(plan: IfView) -> crate::model::ElseView {
    match crate::patterns::chain_end(plan) {
        crate::model::ElseView::Else { body, inline } => crate::model::ElseView::Else {
            body,
            inline: inline || (crate::bodies::block_diverges(chain_last(plan).then_body)
                && chain_last(plan).initializer is None && crate::cleanup::declares_no_names_in(body)),
        },
        other => other,
    }
}

/// Unwrapping the terminal `else` of an `if` changes nothing but the inline
/// flag of the `else` that ends its chain: every branch, condition and
/// initializer along the chain stays, and that flag becomes set exactly
/// when it was or when the last branch diverges, has no initializer and the
/// `else` body declares no names.
pub proof fn law_unwrap_terminal_else_only_inlines_the_last_else(plan: IfView)
    ensures
        with_chain_end(plan, crate::patterns::chain_end(plan)) == plan,
        unwrap_if_spec(plan) == with_chain_end(plan, unwrapped_end(plan)),
    decreases plan,
{
    match plan.else_arm {
        crate::model::ElseView::ElseIf(inner) => {
            law_unwrap_terminal_else_only_inlines_the_last_else(*inner);
        },
        _ => {},
    }
}

pub proof fn lemma_drop_empty_else_if_idempotent(plan: IfView)
    ensures
        drop_empty_else_if(drop_empty_else_if(plan)) == drop_empty_else_if(plan),
    decreases plan,
{
    match plan.else_arm {
        crate::model::ElseView::ElseIf(inner) => lemma_drop_empty_else_if_idempotent(*inner),
        _ => {},
    }
}

/// Dropping empty `else`s a second time changes nothing.
pub proof fn law_drop_empty_else_idempotent(s: StmtView)
    ensures
        drop_empty_else_spec(drop_empty_else_spec(s)) == drop_empty_else_spec(s),
    decreases s,
{
    match s {
        StmtView::Directed { inner, .. } => law_drop_empty_else_idempotent(*inner),
        StmtView::If(plan) => lemma_drop_empty_else_if_idempotent(plan),
        _ => {},
    }
}

} // verus!

verus! {

/// Inlining name aliases never lengthens a list.
pub proof fn law_name_aliases_never_lengthen(list: Seq<StmtView>, index: int, uses: NameUses)
    ensures
        inline_name_aliases_from(list, index, uses).len() <= list.len(),
    decreases list.len() - index,
{
    if !(index < 0 || index + 1 >= list.len()) {
        match crate::cleanup::alias_define_of(list[index]) {
            Some((temp, source)) => {
                if crate::cleanup::read_once(uses, temp) {
                    match crate::aliases::replace_only_read_spec(list[index + 1], temp, source) {
                        Some(next) => law_name_aliases_never_lengthen(
                            list.update(index + 1, next).remove(index),
                            index,
                            uses,
                        ),
                        None => law_name_aliases_never_lengthen(list, index + 1, uses),
                    }
                } else {
                    law_name_aliases_never_lengthen(list, index + 1, uses);
                }
            },
            None => law_name_aliases_never_lengthen(list, index + 1, uses),
        }
    }
}

/// Inlining return aliases never lengthens a list.
pub proof fn law_return_aliases_never_lengthen(list: Seq<StmtView>, index: int, uses: NameUses)
    ensures
        inline_return_aliases_from(list, index, uses).len() <= list.len(),
    decreases list.len() - index,
{
    if !(index < 0 || index + 1 >= list.len()) {
        match crate::cleanup::returned_alias_of(list[index], list[index + 1]) {
            Some(name) => {
                if crate::cleanup::read_once(uses, name) {
                    let value = list[index]->Define_0.value;
                    let values = list[index + 1]->Return_0;
                    law_return_aliases_never_lengthen(
                        list.remove(index).update(index, StmtView::Return(values.update(0, value))),
                        index + 1,
                        uses,
                    );
                } else {
                    law_return_aliases_never_lengthen(list, index + 1, uses);
                }
            },
            None => law_return_aliases_never_lengthen(list, index + 1, uses),
        }
    }
}

/// Dropping the statements that define or discard a name never lengthens a
/// list.
pub proof fn law_retain_never_lengthens(name: Seq<char>, list: Seq<StmtView>)
    ensures
        retained(name, list).len() <= list.len(),
    decreases list.len(),
{
    if list.len() > 0 {
        law_retain_never_lengthens(name, list.drop_last());
    }
}

/// Returning a found element from its loop shortens the list by the
/// declarations and the flag test it no longer needs, and leaves any other
/// list as it is.
pub proof fn law_found_return_shortens(block: Seq<StmtView>)
    ensures
        found_returned(block).len() <= block.len(),
        found_returned(block) != block ==> found_returned(block).len() + 2 <= block.len(),
{
}

/// Running over every nested list a pass that never lengthens a list never
/// lengthens the top list either.
pub proof fn law_tree_never_lengthens<P: crate::lists::ListRewrite>(pass: P, ss: Seq<StmtView>)
    requires
        forall|list: Seq<StmtView>| #[trigger] pass.rewritten(list).len() <= list.len(),
    ensures
        crate::lists::tree_rewritten(pass, ss).len() <= ss.len(),
{
    let r = pass.rewritten(ss);
    assert(crate::lists::tree_rewritten(pass, ss) == crate::lists::all_nested_rewritten(
        crate::lists::pass_fn(pass),
        r,
        (crate::lists::depth_bound() - 1) as nat,
    ));
}

} // verus!

verus! {

pub proof fn lemma_sum_reads_zero(a: Seq<crate::cleanup::Analysis>)
    requires
        forall|i: int| 0 <= i < a.len() ==> (#[trigger] a[i]).reads == 0,
    ensures
        crate::cleanup::sum_reads(a) == 0,
    decreases a.len(),
{
    if a.len() > 0 {
        lemma_sum_reads_zero(a.drop_last());
    }
}

pub proof fn lemma_node_analyses_index(nodes: Seq<NodeView>, temp: Seq<char>)
    ensures
        crate::cleanup::node_analyses(nodes, temp).len() == nodes.len(),
        forall|i: int| 0 <= i < nodes.len() ==> #[trigger] crate::cleanup::node_analyses(nodes, temp)[i]
            == crate::cleanup::analysis_of(nodes[i], temp),
    decreases nodes.len(),
{
    if nodes.len() > 0 {
        lemma_node_analyses_index(nodes.drop_last(), temp);
        assert forall|i: int| 0 <= i < nodes.len() implies #[trigger] crate::cleanup::node_analyses(nodes, temp)[i]
            == crate::cleanup::analysis_of(nodes[i], temp) by {
            if i < nodes.len() - 1 {
                assert(nodes.drop_last()[i] == nodes[i]);
            }
        }
    }
}

/// Each key and value of the elements is ordered where their analyses all are.
pub proof fn lemma_element_analyses_ordered(elements: Seq<ElementView>, temp: Seq<char>)
    requires
        crate::cleanup::all_ordered(crate::cleanup::element_analyses(elements, temp)),
    ensures
        forall|i: int| 0 <= i < elements.len() ==> crate::cleanup::analysis_of((#[trigger] elements[i]).value, temp).ordered
            && match elements[i].key {
                Some(k) => crate::cleanup::analysis_of(k, temp).ordered,
                None => true,
            },
    decreases elements.len(),
{
    if elements.len() > 0 {
        let prefix = crate::cleanup::element_analyses(elements.drop_last(), temp);
        let last = elements.last();
        let tail = match last.key {
            Some(k) => seq![crate::cleanup::analysis_of(k, temp)],
            None => Seq::empty(),
        } + seq![crate::cleanup::analysis_of(last.value, temp)];
        let whole = crate::cleanup::element_analyses(elements, temp);
        assert(whole == prefix + tail);
        assert forall|j: int| 0 <= j < prefix.len() implies (#[trigger] prefix[j]).ordered by {
            assert(whole[j] == prefix[j]);
        }
        lemma_element_analyses_ordered(elements.drop_last(), temp);
        assert(whole[whole.len() - 1] == crate::cleanup::analysis_of(last.value, temp));
        match last.key {
            Some(k) => {
                assert(whole[prefix.len() as int] == crate::cleanup::analysis_of(k, temp));
            },
            None => {},
        }
        assert forall|i: int| 0 <= i < elements.len() implies crate::cleanup::analysis_of((#[trigger] elements[i]).value, temp).ordered
            && match elements[i].key {
                Some(k) => crate::cleanup::analysis_of(k, temp).ordered,
                None => true,
            } by {
            if i < elements.len() - 1 {
                assert(elements.drop_last()[i] == elements[i]);
            }
        }
    }
}

/// The analyses of elements none of whose keys and values read the
/// temporary read nothing.
pub proof fn lemma_element_analyses_unread(elements: Seq<ElementView>, temp: Seq<char>)
    requires
        forall|i: int| 0 <= i < elements.len() ==> crate::cleanup::analysis_of((#[trigger] elements[i]).value, temp).reads == 0
            && match elements[i].key {
                Some(k) => crate::cleanup::analysis_of(k, temp).reads == 0,
                None => true,
            },
    ensures
        forall|j: int| 0 <= j < crate::cleanup::element_analyses(elements, temp).len()
            ==> (#[trigger] crate::cleanup::element_analyses(elements, temp)[j]).reads == 0,
    decreases elements.len(),
{
    if elements.len() > 0 {
        assert forall|i: int| 0 <= i < elements.len() - 1 implies crate::cleanup::analysis_of(
            (#[trigger] elements.drop_last()[i]).value,
            temp,
        ).reads == 0 && match elements.drop_last()[i].key {
            Some(k) => crate::cleanup::analysis_of(k, temp).reads == 0,
            None => true,
        } by {
            assert(elements.drop_last()[i] == elements[i]);
        }
        lemma_element_analyses_unread(elements.drop_last(), temp);
        let prefix = crate::cleanup::element_analyses(elements.drop_last(), temp);
        let last = elements.last();
        let tail = match last.key {
            Some(k) => seq![crate::cleanup::analysis_of(k, temp)],
            None => Seq::empty(),
        } + seq![crate::cleanup::analysis_of(last.value, temp)];
        let whole = crate::cleanup::element_analyses(elements, temp);
        assert(whole == prefix + tail);
        assert forall|j: int| 0 <= j < whole.len() implies (#[trigger] whole[j]).reads == 0 by {
            if j < prefix.len() {
                assert(whole[j] == prefix[j]);
            } else {
                assert(whole[j] == tail[j - prefix.len()]);
            }
        }
    }
}

} // verus!

verus! {

/// The one read of the temporary renamed to another name leaves no read of
/// it, where the expression reads it only in the order Go evaluates it: a
/// temporary inlined into its reader is read nowhere else there.
pub proof fn law_ordered_rename_leaves_no_read(node: NodeView, temp: Seq<char>, source: Seq<char>)
    requires
        temp != source,
        crate::cleanup::analysis_of(node, temp).ordered,
    ensures
        crate::cleanup::analysis_of(rename_node(node, temp, source), temp).reads == 0,
    decreases node,
{
    let r = rename_node(node, temp, source);
    let children = crate::cleanup::child_analyses(node, temp);
    match node {
        NodeView::Identifier(_) => {},
        NodeView::FunctionLiteral { .. } => {},
        NodeView::Verbatim(_) => {},
        NodeView::CompositeLiteral { go_type, elements, layout } => {
            assert(crate::cleanup::all_ordered(children));
            lemma_element_analyses_ordered(elements, temp);
            let re = r->CompositeLiteral_elements;
            assert forall|i: int| 0 <= i < re.len() implies crate::cleanup::analysis_of((#[trigger] re[i]).value, temp).reads
                == 0 && match re[i].key {
                Some(k) => crate::cleanup::analysis_of(k, temp).reads == 0,
                None => true,
            } by {
                let e = elements[i];
                assert(re[i] == rename_element(e, temp, source));
                assert(decreases_to!(node => elements));
                assert(decreases_to!(elements => e));
                law_ordered_rename_leaves_no_read(e.value, temp, source);
                match e.key {
                    Some(k) => law_ordered_rename_leaves_no_read(k, temp, source),
                    None => {},
                }
            }
            lemma_element_analyses_unread(re, temp);
            lemma_sum_reads_zero(crate::cleanup::element_analyses(re, temp));
        },
        NodeView::Call { callee, arguments } => {
            lemma_node_analyses_index(arguments, temp);
            assert(children == seq![crate::cleanup::analysis_of(*callee, temp)] + crate::cleanup::node_analyses(arguments, temp));
            assert(children[0].ordered);
            law_ordered_rename_leaves_no_read(*callee, temp, source);
            let ra = r->Call_arguments;
            lemma_node_analyses_index(ra, temp);
            assert forall|i: int| 0 <= i < ra.len() implies crate::cleanup::analysis_of(#[trigger] ra[i], temp).reads == 0 by {
                assert(children[i + 1] == crate::cleanup::analysis_of(arguments[i], temp));
                assert(children[i + 1].ordered);
                assert(decreases_to!(node => arguments));
                assert(decreases_to!(arguments => arguments[i]));
                law_ordered_rename_leaves_no_read(arguments[i], temp, source);
            }
            let rc = crate::cleanup::child_analyses(r, temp);
            assert(rc == seq![crate::cleanup::analysis_of(*r->Call_callee, temp)] + crate::cleanup::node_analyses(ra, temp));
            assert forall|j: int| 0 <= j < rc.len() implies (#[trigger] rc[j]).reads == 0 by {
                if j > 0 {
                    assert(rc[j] == crate::cleanup::node_analyses(ra, temp)[j - 1]);
                }
            }
            lemma_sum_reads_zero(rc);
        },
        NodeView::Instantiation { base, .. } => {
            assert(children[0].ordered);
            law_ordered_rename_leaves_no_read(*base, temp, source);
            lemma_sum_reads_zero(crate::cleanup::child_analyses(r, temp));
        },
        NodeView::Selector { base, .. } => {
            assert(children[0].ordered);
            law_ordered_rename_leaves_no_read(*base, temp, source);
            lemma_sum_reads_zero(crate::cleanup::child_analyses(r, temp));
        },
        NodeView::TypeAssertion { base, .. } => {
            assert(children[0].ordered);
            law_ordered_rename_leaves_no_read(*base, temp, source);
            lemma_sum_reads_zero(crate::cleanup::child_analyses(r, temp));
        },
        NodeView::Index { base, index } => {
            assert(children[0].ordered && children[1].ordered);
            law_ordered_rename_leaves_no_read(*base, temp, source);
            law_ordered_rename_leaves_no_read(*index, temp, source);
            let rc = crate::cleanup::child_analyses(r, temp);
            assert forall|j: int| 0 <= j < rc.len() implies (#[trigger] rc[j]).reads == 0 by {}
            lemma_sum_reads_zero(rc);
        },
        NodeView::Slice { base, low, high, max } => {
            let lows = crate::cleanup::opt_analyses(low, temp);
            let highs = crate::cleanup::opt_analyses(high, temp);
            let maxes = crate::cleanup::opt_analyses(max, temp);
            let rl = crate::cleanup::opt_analyses(r->Slice_low, temp);
            let rh = crate::cleanup::opt_analyses(r->Slice_high, temp);
            let rm = crate::cleanup::opt_analyses(r->Slice_max, temp);
            assert(children == seq![crate::cleanup::analysis_of(*base, temp)] + lows + highs + maxes);
            assert(children[0].ordered);
            assert(r->Slice_low == rename_opt(low, temp, source));
            assert(r->Slice_high == rename_opt(high, temp, source));
            assert(r->Slice_max == rename_opt(max, temp, source));
            law_ordered_rename_leaves_no_read(*base, temp, source);
            match low {
                Some(b) => {
                    assert(children[1] == crate::cleanup::analysis_of(*b, temp));
                    law_ordered_rename_leaves_no_read(*b, temp, source);
                    assert(rename_opt(low, temp, source) == Some(Box::new(rename_node(*b, temp, source))));
                    assert(rl == seq![crate::cleanup::analysis_of(rename_node(*b, temp, source), temp)]);
                },
                None => {
                    assert(rl.len() == 0);
                },
            }
            match high {
                Some(b) => {
                    assert(children[(1 + lows.len()) as int] == crate::cleanup::analysis_of(*b, temp));
                    law_ordered_rename_leaves_no_read(*b, temp, source);
                    assert(rename_opt(high, temp, source) == Some(Box::new(rename_node(*b, temp, source))));
                    assert(rh == seq![crate::cleanup::analysis_of(rename_node(*b, temp, source), temp)]);
                },
                None => {
                    assert(rh.len() == 0);
                },
            }
            match max {
                Some(b) => {
                    assert(children[(1 + lows.len() + highs.len()) as int] == crate::cleanup::analysis_of(*b, temp));
                    law_ordered_rename_leaves_no_read(*b, temp, source);
                    assert(rename_opt(max, temp, source) == Some(Box::new(rename_node(*b, temp, source))));
                    assert(rm == seq![crate::cleanup::analysis_of(rename_node(*b, temp, source), temp)]);
                },
                None => {
                    assert(rm.len() == 0);
                },
            }
            let rc = crate::cleanup::child_analyses(r, temp);
            assert(rc == seq![crate::cleanup::analysis_of(*r->Slice_base, temp)] + rl + rh + rm);
            assert forall|j: int| 0 <= j < rc.len() implies (#[trigger] rc[j]).reads == 0 by {
                if j == 0 {
                } else if j < 1 + rl.len() {
                    assert(rc[j] == rl[j - 1]);
                } else if j < 1 + rl.len() + rh.len() {
                    assert(rc[j] == rh[j - 1 - rl.len()]);
                } else {
                    assert(rc[j] == rm[j - 1 - rl.len() - rh.len()]);
                }
            }
            lemma_sum_reads_zero(rc);
        },
        NodeView::Unary { operand, .. } => {
            assert(children[0].ordered);
            law_ordered_rename_leaves_no_read(*operand, temp, source);
            lemma_sum_reads_zero(crate::cleanup::child_analyses(r, temp));
        },
        NodeView::Conversion { operand, .. } => {
            assert(children[0].ordered);
            law_ordered_rename_leaves_no_read(*operand, temp, source);
            lemma_sum_reads_zero(crate::cleanup::child_analyses(r, temp));
        },
        NodeView::AddressOf(operand) => {
            assert(children[0].ordered);
            law_ordered_rename_leaves_no_read(*operand, temp, source);
            lemma_sum_reads_zero(crate::cleanup::child_analyses(r, temp));
        },
        NodeView::Dereference(operand) => {
            assert(children[0].ordered);
            law_ordered_rename_leaves_no_read(*operand, temp, source);
            lemma_sum_reads_zero(crate::cleanup::child_analyses(r, temp));
        },
        NodeView::Spread(operand) => {
            assert(children[0].ordered);
            law_ordered_rename_leaves_no_read(*operand, temp, source);
            lemma_sum_reads_zero(crate::cleanup::child_analyses(r, temp));
        },
        NodeView::Binary { left, right, .. } => {
            assert(children[0].ordered && children[1].ordered);
            law_ordered_rename_leaves_no_read(*left, temp, source);
            law_ordered_rename_leaves_no_read(*right, temp, source);
            let rc = crate::cleanup::child_analyses(r, temp);
            assert forall|j: int| 0 <= j < rc.len() implies (#[trigger] rc[j]).reads == 0 by {}
            lemma_sum_reads_zero(rc);
        },
        _ => {
            lemma_sum_reads_zero(crate::cleanup::child_analyses(r, temp));
        },
    }
}

} // verus!

verus! {

pub proof fn lemma_before_first_reader(analyses: Seq<crate::cleanup::Analysis>)
    ensures
        match crate::cleanup::first_reader(analyses) {
            Some(r) => forall|i: int| 0 <= i < r ==> (#[trigger] analyses[i]).reads == 0,
            None => true,
        },
    decreases analyses.len(),
{
    if analyses.len() > 0 {
        lemma_before_first_reader(analyses.drop_last());
        crate::aliases::lemma_first_reader_bounds(analyses.drop_last());
        match crate::cleanup::first_reader(analyses.drop_last()) {
            Some(r) => {
                assert forall|i: int| 0 <= i < r implies (#[trigger] analyses[i]).reads == 0 by {
                    assert(analyses.drop_last()[i] == analyses[i]);
                }
            },
            None => {
                assert forall|i: int| 0 <= i < analyses.len() - 1 implies (#[trigger] analyses[i]).reads == 0 by {
                    assert(analyses.drop_last()[i] == analyses[i]);
                }
            },
        }
    }
}

/// Where `rename_in` renames, the sibling it renamed and every sibling before
/// it read the temporary no more, and the other siblings stay as they were.
pub proof fn law_rename_in_leaves_no_read_up_to_the_reader(
    siblings: Seq<crate::model::ExprView>,
    written: Option<int>,
    temp: Seq<char>,
    source: Seq<char>,
)
    requires
        temp != source,
        crate::aliases::rename_in_spec(siblings, written, temp, source) is Some,
    ensures
        ({
            let analyses = crate::aliases::sibling_analyses(siblings, temp);
            let r = crate::aliases::rename_target(analyses, written).unwrap();
            let renamed = crate::aliases::rename_in_spec(siblings, written, temp, source).unwrap();
            &&& renamed.len() == siblings.len()
            &&& forall|i: int| 0 <= i < siblings.len() && i != r ==> renamed[i] == siblings[i]
            &&& forall|i: int| 0 <= i <= r ==> crate::cleanup::analysis_of((#[trigger] renamed[i]).node, temp).reads == 0
        }),
{
    let analyses = crate::aliases::sibling_analyses(siblings, temp);
    let r = crate::aliases::rename_target(analyses, written).unwrap();
    crate::aliases::lemma_first_reader_bounds(analyses);
    lemma_before_first_reader(analyses);
    law_ordered_rename_leaves_no_read(siblings[r].node, temp, source);
    let renamed = crate::aliases::rename_in_spec(siblings, written, temp, source).unwrap();
    assert forall|i: int| 0 <= i <= r implies crate::cleanup::analysis_of((#[trigger] renamed[i]).node, temp).reads == 0 by {
        if i < r {
            assert(analyses[i] == crate::cleanup::analysis_of(siblings[i].node, temp));
        }
    }
}

} // verus!

verus! {

/// Mixing two numeric constant kinds gives the same kind in either order.
pub proof fn law_join_commutative(a: crate::values::ConstantKind, b: crate::values::ConstantKind)
    ensures
        crate::values::joined_kind(a, b) == crate::values::joined_kind(b, a),
{
}

/// A numeric constant kind mixed with itself stays as it is.
pub proof fn law_join_idempotent(a: crate::values::ConstantKind)
    requires
        crate::values::is_numeric_kind(a),
    ensures
        crate::values::joined_kind(a, a) == Some(a),
{
}

/// Mixing three numeric constant kinds gives the same kind however the
/// mixing is grouped.
pub proof fn law_join_associative(
    a: crate::values::ConstantKind,
    b: crate::values::ConstantKind,
    c: crate::values::ConstantKind,
)
    requires
        crate::values::is_numeric_kind(a),
        crate::values::is_numeric_kind(b),
        crate::values::is_numeric_kind(c),
    ensures
        crate::values::joined_kind(crate::values::joined_kind(a, b).unwrap(), c) == crate::values::joined_kind(
            a,
            crate::values::joined_kind(b, c).unwrap(),
        ),
{
}

} // verus!

verus! {

/// The renaming keeps every name.
pub open spec fn renames_nothing(g: crate::visit::Renaming) -> bool {
    forall|x: Seq<char>| #[trigger] g(x) is None
}

pub proof fn lemma_text_kept(g: crate::visit::Renaming, t: Seq<char>)
    requires
        renames_nothing(g),
    ensures
        crate::visit::renamed_text(g, t) == t,
{
    assert(g(t) is None);
}

pub proof fn lemma_opt_text_kept(g: crate::visit::Renaming, t: Option<Seq<char>>)
    requires
        renames_nothing(g),
    ensures
        crate::visit::opt_renamed_text(g, t) == t,
{
    match t {
        Some(x) => lemma_text_kept(g, x),
        None => {},
    }
}

pub proof fn lemma_node_kept(n: NodeView, g: crate::visit::Renaming)
    requires
        renames_nothing(g),
    ensures
        crate::visit::node_renamed(n, g) == n,
    decreases n,
{
    let r = crate::visit::node_renamed(n, g);
    match n {
        NodeView::Identifier(t) => lemma_text_kept(g, t),
        NodeView::CompositeLiteral { go_type, elements, layout } => {
            assert forall|i: int| 0 <= i < elements.len() implies crate::visit::element_renamed(elements[i], g)
                == elements[i] by {
                let e = elements[i];
                assert(decreases_to!(n => elements));
                assert(decreases_to!(elements => e));
                lemma_node_kept(e.value, g);
                match e.key {
                    Some(k) => lemma_node_kept(k, g),
                    None => {},
                }
            }
            assert(r->CompositeLiteral_elements =~= elements);
        },
        NodeView::Call { callee, arguments } => {
            lemma_node_kept(*callee, g);
            assert forall|i: int| 0 <= i < arguments.len() implies crate::visit::node_renamed(arguments[i], g)
                == arguments[i] by {
                assert(decreases_to!(n => arguments));
                assert(decreases_to!(arguments => arguments[i]));
                lemma_node_kept(arguments[i], g);
            }
            assert(r->Call_arguments =~= arguments);
        },
        NodeView::Instantiation { base, .. } => lemma_node_kept(*base, g),
        NodeView::Selector { base, .. } => lemma_node_kept(*base, g),
        NodeView::TypeAssertion { base, .. } => lemma_node_kept(*base, g),
        NodeView::Index { base, index } => {
            lemma_node_kept(*base, g);
            lemma_node_kept(*index, g);
        },
        NodeView::Slice { base, low, high, max } => {
            lemma_node_kept(*base, g);
            match low {
                Some(b) => lemma_node_kept(*b, g),
                None => {},
            }
            match high {
                Some(b) => lemma_node_kept(*b, g),
                None => {},
            }
            match max {
                Some(b) => lemma_node_kept(*b, g),
                None => {},
            }
            assert(crate::visit::opt_node_renamed(low, g) == low);
            assert(crate::visit::opt_node_renamed(high, g) == high);
            assert(crate::visit::opt_node_renamed(max, g) == max);
        },
        NodeView::Unary { operand, .. } => lemma_node_kept(*operand, g),
        NodeView::AddressOf(operand) => lemma_node_kept(*operand, g),
        NodeView::Dereference(operand) => lemma_node_kept(*operand, g),
        NodeView::Conversion { operand, .. } => lemma_node_kept(*operand, g),
        NodeView::Spread(operand) => lemma_node_kept(*operand, g),
        NodeView::Binary { left, right, .. } => {
            lemma_node_kept(*left, g);
            lemma_node_kept(*right, g);
        },
        NodeView::FunctionLiteral { parameters, result, body, layout } => {
            assert forall|i: int| 0 <= i < parameters.len() implies (#[trigger] r->FunctionLiteral_parameters[i])
                == parameters[i] by {
                lemma_text_kept(g, parameters[i].name);
            }
            assert(r->FunctionLiteral_parameters =~= parameters);
            assert(decreases_to!(n => body));
            lemma_stmts_kept(body, g);
        },
        _ => {},
    }
}

pub proof fn lemma_expr_kept(e: crate::model::ExprView, g: crate::visit::Renaming)
    requires
        renames_nothing(g),
    ensures
        crate::visit::expr_renamed(e, g) == e,
    decreases e,
{
    lemma_node_kept(e.node, g);
}

pub proof fn lemma_opt_expr_kept(e: Option<crate::model::ExprView>, g: crate::visit::Renaming)
    requires
        renames_nothing(g),
    ensures
        crate::visit::opt_expr_renamed(e, g) == e,
    decreases e,
{
    match e {
        Some(x) => lemma_expr_kept(x, g),
        None => {},
    }
}

pub proof fn lemma_exprs_kept(es: Seq<crate::model::ExprView>, g: crate::visit::Renaming)
    requires
        renames_nothing(g),
    ensures
        crate::visit::exprs_renamed(es, g) == es,
    decreases es,
{
    assert forall|i: int| 0 <= i < es.len() implies crate::visit::expr_renamed(es[i], g) == es[i] by {
        assert(decreases_to!(es => es[i]));
        lemma_expr_kept(es[i], g);
    }
    assert(crate::visit::exprs_renamed(es, g) =~= es);
}

pub proof fn lemma_stmts_kept(body: Seq<StmtView>, g: crate::visit::Renaming)
    requires
        renames_nothing(g),
    ensures
        crate::visit::stmts_renamed(body, g) == body,
    decreases body,
{
    assert forall|i: int| 0 <= i < body.len() implies crate::visit::stmt_renamed(body[i], g) == body[i] by {
        assert(decreases_to!(body => body[i]));
        lemma_stmt_kept(body[i], g);
    }
    assert(crate::visit::stmts_renamed(body, g) =~= body);
}

pub proof fn lemma_def_kept(d: crate::model::DefView, g: crate::visit::Renaming)
    requires
        renames_nothing(g),
    ensures
        crate::visit::def_renamed(d, g) == d,
    decreases d,
{
    assert forall|i: int| 0 <= i < d.names.len() implies crate::visit::names_renamed(g, d.names)[i] == d.names[i] by {
        lemma_text_kept(g, d.names[i]);
    }
    assert(crate::visit::names_renamed(g, d.names) =~= d.names);
    lemma_expr_kept(d.value, g);
}

pub proof fn lemma_value_kept(v: crate::model::ValueView, g: crate::visit::Renaming)
    requires
        renames_nothing(g),
    ensures
        crate::visit::value_renamed(v, g) == v,
    decreases v,
{
    lemma_stmts_kept(v.setup, g);
    lemma_expr_kept(v.expression, g);
}

pub proof fn lemma_if_kept(plan: IfView, g: crate::visit::Renaming)
    requires
        renames_nothing(g),
    ensures
        crate::visit::if_renamed(plan, g) == plan,
    decreases plan,
{
    lemma_stmts_kept(plan.condition_setup, g);
    match plan.initializer {
        Some(d) => lemma_def_kept(d, g),
        None => {},
    }
    lemma_expr_kept(plan.condition, g);
    lemma_stmts_kept(plan.then_body, g);
    lemma_else_kept(plan.else_arm, g);
}

pub proof fn lemma_else_kept(arm: crate::model::ElseView, g: crate::visit::Renaming)
    requires
        renames_nothing(g),
    ensures
        crate::visit::else_renamed(arm, g) == arm,
    decreases arm,
{
    match arm {
        crate::model::ElseView::NoElse => {},
        crate::model::ElseView::ElseIf(inner) => lemma_if_kept(*inner, g),
        crate::model::ElseView::Else { body, .. } => lemma_stmts_kept(body, g),
    }
}

pub proof fn lemma_header_kept(header: crate::model::HeaderView, g: crate::visit::Renaming)
    requires
        renames_nothing(g),
    ensures
        crate::visit::header_renamed(header, g) == header,
    decreases header,
{
    match header {
        crate::model::HeaderView::Infinite => {},
        crate::model::HeaderView::While(c) => lemma_expr_kept(c, g),
        crate::model::HeaderView::Range { key, value, iterable } => {
            lemma_opt_text_kept(g, key);
            lemma_opt_text_kept(g, value);
            lemma_expr_kept(iterable, g);
        },
        crate::model::HeaderView::Counted { variable, start, condition } => {
            lemma_text_kept(g, variable);
            lemma_expr_kept(start, g);
            lemma_opt_expr_kept(condition, g);
        },
    }
}

pub proof fn lemma_assign_kept(form: crate::model::AssignView, g: crate::visit::Renaming)
    requires
        renames_nothing(g),
    ensures
        crate::visit::assign_renamed(form, g) == form,
    decreases form,
{
    match form {
        crate::model::AssignView::Compound { target_capture, target, kind } => {
            lemma_stmts_kept(target_capture, g);
            lemma_expr_kept(target, g);
            match kind {
                crate::model::CompoundView::OpAssign { rhs, pinned_left, .. } => {
                    lemma_value_kept(rhs, g);
                    lemma_opt_expr_kept(pinned_left, g);
                },
                _ => {},
            }
        },
        crate::model::AssignView::Simple { target_capture, target, value } => {
            lemma_stmts_kept(target_capture, g);
            lemma_expr_kept(target, g);
            lemma_value_kept(value, g);
        },
    }
}

pub proof fn lemma_arm_kept(arm: crate::model::ArmView, g: crate::visit::Renaming)
    requires
        renames_nothing(g),
    ensures
        crate::visit::arm_renamed(arm, g) == arm,
    decreases arm,
{
    match arm {
        crate::model::ArmView::Receive { receive_vars, channel, body } => {
            lemma_opt_text_kept(g, receive_vars);
            lemma_expr_kept(channel, g);
            lemma_stmts_kept(body, g);
        },
        crate::model::ArmView::Send { channel, value, body } => {
            lemma_expr_kept(channel, g);
            lemma_expr_kept(value, g);
            lemma_stmts_kept(body, g);
        },
        crate::model::ArmView::Default { body } => lemma_stmts_kept(body, g),
    }
}

pub proof fn lemma_select_kept(plan: crate::model::SelectView, g: crate::visit::Renaming)
    requires
        renames_nothing(g),
    ensures
        crate::visit::select_renamed(plan, g) == plan,
    decreases plan,
{
    lemma_stmts_kept(plan.setup, g);
    lemma_stmts_kept(plan.postlude, g);
    assert forall|i: int| 0 <= i < plan.arms.len() implies crate::visit::arm_renamed(plan.arms[i], g) == plan.arms[i] by {
        assert(decreases_to!(plan => plan.arms));
        assert(decreases_to!(plan.arms => plan.arms[i]));
        lemma_arm_kept(plan.arms[i], g);
    }
    assert(crate::visit::select_renamed(plan, g).arms =~= plan.arms);
}

pub proof fn lemma_switch_kept(plan: crate::model::SwitchView, g: crate::visit::Renaming)
    requires
        renames_nothing(g),
    ensures
        crate::visit::switch_renamed(plan, g) == plan,
    decreases plan,
{
    lemma_stmts_kept(plan.postlude, g);
    match plan.kind {
        crate::model::SwitchKindView::Conditional => {},
        crate::model::SwitchKindView::Value { subject } => lemma_expr_kept(subject, g),
        crate::model::SwitchKindView::Type { subject, binding } => {
            lemma_expr_kept(subject, g);
            lemma_opt_text_kept(g, binding);
        },
    }
    match plan.default {
        Some(body) => lemma_stmts_kept(body, g),
        None => {},
    }
    assert forall|i: int| 0 <= i < plan.cases.len() implies crate::visit::case_renamed(plan.cases[i], g) == plan.cases[i] by {
        assert(decreases_to!(plan => plan.cases));
        assert(decreases_to!(plan.cases => plan.cases[i]));
        let c = plan.cases[i];
        assert(decreases_to!(c => c.labels));
        assert(decreases_to!(c => c.body));
        lemma_exprs_kept(c.labels, g);
        lemma_stmts_kept(c.body, g);
    }
    assert(crate::visit::switch_renamed(plan, g).cases =~= plan.cases);
}

pub proof fn lemma_loop_kept(plan: crate::model::LoopView, g: crate::visit::Renaming)
    requires
        renames_nothing(g),
    ensures
        crate::visit::loop_renamed(plan, g) == plan,
    decreases plan,
{
    lemma_stmts_kept(plan.prologue, g);
    lemma_header_kept(plan.header, g);
    lemma_stmts_kept(plan.body, g);
}

pub proof fn lemma_const_kept(c: crate::model::ConstView, g: crate::visit::Renaming)
    requires
        renames_nothing(g),
    ensures
        (crate::model::ConstView {
            is_const: c.is_const,
            name: crate::visit::renamed_text(g, c.name),
            ty_str: c.ty_str,
            value: crate::visit::expr_renamed(c.value, g),
        }) == c,
    decreases c,
{
    lemma_text_kept(g, c.name);
    lemma_expr_kept(c.value, g);
}

pub proof fn lemma_stmt_kept(s: StmtView, g: crate::visit::Renaming)
    requires
        renames_nothing(g),
    ensures
        crate::visit::stmt_renamed(s, g) == s,
    decreases s,
{
    match s {
        StmtView::If(plan) => lemma_if_kept(plan, g),
        StmtView::Loop(plan) => lemma_loop_kept(plan, g),
        StmtView::Block(body) => lemma_stmts_kept(body, g),
        StmtView::Body(body) => lemma_stmts_kept(body, g),
        StmtView::WhileLet(body) => lemma_stmts_kept(body, g),
        StmtView::Const(c) => lemma_const_kept(c, g),
        StmtView::Return(values) => lemma_exprs_kept(values, g),
        StmtView::Assign(form) => lemma_assign_kept(form, g),
        StmtView::Async { call, .. } => lemma_expr_kept(call, g),
        StmtView::Select(plan) => lemma_select_kept(plan, g),
        StmtView::Switch(plan) => lemma_switch_kept(plan, g),
        StmtView::Define(d) => lemma_def_kept(d, g),
        StmtView::AssignMany { targets, value } => {
            lemma_exprs_kept(targets, g);
            lemma_expr_kept(value, g);
            assert(crate::visit::stmt_renamed(s, g) == StmtView::AssignMany { targets, value });
        },
        StmtView::VarDecl { name, go_type, value } => {
            lemma_text_kept(g, name);
            lemma_opt_expr_kept(value, g);
            assert(crate::visit::stmt_renamed(s, g) == StmtView::VarDecl { name, go_type, value });
        },
        StmtView::Discard(e) => lemma_expr_kept(e, g),
        StmtView::ExpressionStatement { expression, .. } => lemma_expr_kept(expression, g),
        StmtView::Directed { inner, .. } => lemma_stmt_kept(*inner, g),
        _ => {},
    }
}

/// Renaming with a renaming that keeps every name leaves the statements as
/// they are.
pub proof fn law_renaming_nothing_keeps_statements(statements: Seq<StmtView>, g: crate::visit::Renaming)
    requires
        renames_nothing(g),
    ensures
        crate::visit::stmts_renamed(statements, g) == statements,
{
    lemma_stmts_kept(statements, g);
}

} // verus!

verus! {

pub proof fn lemma_each_statement_keeps_length(which: crate::cleanup::StatementRewrite, ss: Seq<StmtView>)
    ensures
        crate::lists::tree_rewritten(crate::cleanup::EachStatement { which }, ss).len() == ss.len(),
{
    let pass = crate::cleanup::EachStatement { which };
    let r = crate::lists::ListRewrite::rewritten(&pass, ss);
    assert(crate::lists::tree_rewritten(pass, ss) == crate::lists::all_nested_rewritten(
        crate::lists::pass_fn(pass),
        r,
        (crate::lists::depth_bound() - 1) as nat,
    ));
}

pub proof fn lemma_drop_rounds_never_lengthen(ss: Seq<StmtView>, rounds: nat)
    ensures
        crate::temps::drop_rounds(ss, rounds).len() <= ss.len(),
    decreases rounds,
{
    if rounds > 0 {
        match crate::temps::drop_round(ss) {
            Some(next) => {
                let name = crate::temps::first_unread(ss, crate::walk::stmts_preorder(ss)).unwrap();
                let f = crate::temps::retain_fn(name);
                let kept = crate::lists::tree_map(f, ss, crate::lists::depth_bound());
                assert(kept == crate::lists::all_nested_rewritten(
                    f,
                    f(ss),
                    (crate::lists::depth_bound() - 1) as nat,
                ));
                law_retain_never_lengthens(name, ss);
                lemma_each_statement_keeps_length(crate::cleanup::StatementRewrite::DropEmptyElse, kept);
                lemma_drop_rounds_never_lengthen(next, (rounds - 1) as nat);
            },
            None => {},
        }
    }
}

/// Cleaning up a body never lengthens its top statement list.
pub proof fn law_clean_up_never_lengthens(
    before: Seq<StmtView>,
    inlined: Seq<StmtView>,
    returned: Seq<StmtView>,
)
    requires
        crate::found::name_aliases_inlined(before, inlined),
        crate::found::return_aliases_inlined(inlined, returned),
    ensures
        crate::found::later_rewrites(returned).len() <= before.len(),
{
    let uses = choose|uses: NameUses|
        #[trigger] uses.describes(before) && inlined == crate::lists::tree_rewritten(
            crate::aliases::NameAliases { uses },
            before,
        );
    let pass = crate::aliases::NameAliases { uses };
    assert forall|list: Seq<StmtView>| #[trigger] crate::lists::ListRewrite::rewritten(&pass, list).len() <= list.len() by {
        law_name_aliases_never_lengthen(list, 0, uses);
    }
    law_tree_never_lengthens(pass, before);
    let uses2 = choose|uses: NameUses|
        #[trigger] uses.describes(inlined) && returned == crate::lists::tree_rewritten(
            crate::cleanup::ReturnAliases { uses },
            inlined,
        );
    let pass2 = crate::cleanup::ReturnAliases { uses: uses2 };
    assert forall|list: Seq<StmtView>| #[trigger] crate::lists::ListRewrite::rewritten(&pass2, list).len() <= list.len() by {
        law_return_aliases_never_lengthen(list, 0, uses2);
    }
    law_tree_never_lengthens(pass2, inlined);
    let dropped = crate::temps::drop_rounds(returned, crate::temps::round_bound());
    lemma_drop_rounds_never_lengthen(returned, crate::temps::round_bound());
    let folded = crate::lists::tree_rewritten(
        crate::cleanup::EachStatement { which: crate::cleanup::StatementRewrite::FoldCompound },
        dropped,
    );
    lemma_each_statement_keeps_length(crate::cleanup::StatementRewrite::FoldCompound, dropped);
    assert forall|list: Seq<StmtView>| #[trigger] crate::lists::ListRewrite::rewritten(&crate::found::FoundReturns, list).len()
        <= list.len() by {
        law_found_return_shortens(list);
    }
    law_tree_never_lengthens(crate::found::FoundReturns, folded);
    let found = crate::lists::tree_rewritten(crate::found::FoundReturns, folded);
    lemma_each_statement_keeps_length(crate::cleanup::StatementRewrite::UnwrapTerminalElse, found);
}

/// The nodes a test for work looks at, `n` first: every node reachable
/// through the children of `n`, without entering a function literal's body
/// or the keys of a composite literal.
pub open spec fn scanned(n: NodeView) -> Seq<NodeView>
    decreases n,
{
    seq![n] + match n {
        NodeView::CompositeLiteral { elements, .. } => scanned_values(elements),
        NodeView::Call { callee, arguments } => scanned(*callee) + scanned_all(arguments),
        NodeView::Instantiation { base, .. }
        | NodeView::Selector { base, .. }
        | NodeView::TypeAssertion { base, .. } => scanned(*base),
        NodeView::Index { base, index } => scanned(*base) + scanned(*index),
        NodeView::Slice { base, low, high, max } => scanned(*base) + scanned_opt(low) + scanned_opt(high)
            + scanned_opt(max),
        NodeView::Unary { operand, .. }
        | NodeView::Conversion { operand, .. }
        | NodeView::AddressOf(operand)
        | NodeView::Dereference(operand)
        | NodeView::Spread(operand) => scanned(*operand),
        NodeView::Binary { left, right, .. } => scanned(*left) + scanned(*right),
        _ => Seq::empty(),
    }
}

pub open spec fn scanned_values(elements: Seq<ElementView>) -> Seq<NodeView>
    decreases elements,
{
    if elements.len() == 0 {
        Seq::empty()
    } else {
        scanned_values(elements.drop_last()) + scanned(elements.last().value)
    }
}

pub open spec fn scanned_all(nodes: Seq<NodeView>) -> Seq<NodeView>
    decreases nodes,
{
    if nodes.len() == 0 {
        Seq::empty()
    } else {
        scanned_all(nodes.drop_last()) + scanned(nodes.last())
    }
}

pub open spec fn scanned_opt(node: Option<Box<NodeView>>) -> Seq<NodeView>
    decreases node,
{
    match node {
        Some(n) => scanned(*n),
        None => Seq::empty(),
    }
}

/// Whether one of the nodes is a call or a type assertion.
pub open spec fn holds_work(nodes: Seq<NodeView>) -> bool {
    exists|i: int| 0 <= i < nodes.len() && (#[trigger] nodes[i] is Call || nodes[i] is TypeAssertion)
}

proof fn lemma_holds_work_concat(a: Seq<NodeView>, b: Seq<NodeView>)
    ensures
        holds_work(a + b) == (holds_work(a) || holds_work(b)),
{
    if holds_work(a + b) {
        let i = choose|i: int| 0 <= i < (a + b).len() && ((a + b)[i] is Call || (a + b)[i] is TypeAssertion);
        if i < a.len() {
            assert(a[i] == (a + b)[i]);
        } else {
            assert(b[i - a.len()] == (a + b)[i]);
        }
    }
    if holds_work(a) {
        let i = choose|i: int| 0 <= i < a.len() && (a[i] is Call || a[i] is TypeAssertion);
        assert((a + b)[i] == a[i]);
    }
    if holds_work(b) {
        let i = choose|i: int| 0 <= i < b.len() && (b[i] is Call || b[i] is TypeAssertion);
        assert((a + b)[a.len() + i] == b[i]);
    }
}

proof fn lemma_values_work(elements: Seq<ElementView>)
    ensures
        crate::model::element_values_work(elements) == holds_work(scanned_values(elements)),
    decreases elements,
{
    if elements.len() > 0 {
        lemma_values_work(elements.drop_last());
        law_does_work_is_reachable_work(elements.last().value);
        lemma_holds_work_concat(scanned_values(elements.drop_last()), scanned(elements.last().value));
    } else {
        assert(!holds_work(Seq::<NodeView>::empty()));
    }
}

proof fn lemma_opt_work(node: Option<Box<NodeView>>)
    ensures
        crate::model::opt_works(node) == holds_work(scanned_opt(node)),
    decreases node,
{
    match node {
        Some(n) => law_does_work_is_reachable_work(*n),
        None => assert(!holds_work(Seq::<NodeView>::empty())),
    }
}

/// A node does work exactly when some node reachable through its children
/// (the node included), entering neither function literal bodies nor the
/// keys of composite literals, is a call or a type assertion.
pub proof fn law_does_work_is_reachable_work(n: NodeView)
    ensures
        n.does_work() == holds_work(scanned(n)),
    decreases n,
{
    let rest = scanned(n).subrange(1, scanned(n).len() as int);
    assert(scanned(n) =~= seq![n] + rest);
    lemma_holds_work_concat(seq![n], rest);
    if n is Call || n is TypeAssertion {
        assert(seq![n][0] == n);
    } else {
        assert(!holds_work(seq![n])) by {
            if holds_work(seq![n]) {
                let i = choose|i: int| 0 <= i < 1 && (seq![n][i] is Call || seq![n][i] is TypeAssertion);
                assert(seq![n][i] == n);
            }
        }
        match n {
            NodeView::CompositeLiteral { elements, .. } => {
                assert(rest =~= scanned_values(elements));
                lemma_values_work(elements);
            },
            NodeView::Instantiation { base, .. } | NodeView::Selector { base, .. } => {
                assert(rest =~= scanned(*base));
                law_does_work_is_reachable_work(*base);
            },
            NodeView::Index { base, index } => {
                assert(rest =~= scanned(*base) + scanned(*index));
                law_does_work_is_reachable_work(*base);
                law_does_work_is_reachable_work(*index);
                lemma_holds_work_concat(scanned(*base), scanned(*index));
            },
            NodeView::Slice { base, low, high, max } => {
                assert(rest =~= scanned(*base) + scanned_opt(low) + scanned_opt(high) + scanned_opt(max));
                law_does_work_is_reachable_work(*base);
                lemma_opt_work(low);
                lemma_opt_work(high);
                lemma_opt_work(max);
                lemma_holds_work_concat(scanned(*base), scanned_opt(low));
                lemma_holds_work_concat(scanned(*base) + scanned_opt(low), scanned_opt(high));
                lemma_holds_work_concat(scanned(*base) + scanned_opt(low) + scanned_opt(high), scanned_opt(max));
            },
            NodeView::Unary { operand, .. }
            | NodeView::Conversion { operand, .. }
            | NodeView::AddressOf(operand)
            | NodeView::Dereference(operand)
            | NodeView::Spread(operand) => {
                assert(rest =~= scanned(*operand));
                law_does_work_is_reachable_work(*operand);
            },
            NodeView::Binary { left, right, .. } => {
                assert(rest =~= scanned(*left) + scanned(*right));
                law_does_work_is_reachable_work(*left);
                law_does_work_is_reachable_work(*right);
                lemma_holds_work_concat(scanned(*left), scanned(*right));
            },
            _ => {
                assert(rest =~= Seq::<NodeView>::empty());
                assert(!holds_work(Seq::<NodeView>::empty()));
            },
        }
    }
}

/// The identifier names of a node outside function literals, in order,
/// the keys of composite literals included.
pub open spec fn idents(n: NodeView) -> Seq<Seq<char>>
    decreases n,
{
    match n {
        NodeView::Identifier(t) => seq![t],
        NodeView::CompositeLiteral { elements, .. } => element_idents(elements),
        NodeView::Call { callee, arguments } => idents(*callee) + all_idents(arguments),
        NodeView::Instantiation { base, .. }
        | NodeView::Selector { base, .. }
        | NodeView::TypeAssertion { base, .. } => idents(*base),
        NodeView::Index { base, index } => idents(*base) + idents(*index),
        NodeView::Slice { base, low, high, max } => idents(*base) + opt_idents(low) + opt_idents(high)
            + opt_idents(max),
        NodeView::Unary { operand, .. }
        | NodeView::Conversion { operand, .. }
        | NodeView::AddressOf(operand)
        | NodeView::Dereference(operand)
        | NodeView::Spread(operand) => idents(*operand),
        NodeView::Binary { left, right, .. } => idents(*left) + idents(*right),
        _ => Seq::empty(),
    }
}

pub open spec fn element_idents(elements: Seq<ElementView>) -> Seq<Seq<char>>
    decreases elements,
{
    if elements.len() == 0 {
        Seq::empty()
    } else {
        element_idents(elements.drop_last()) + (match elements.last().key {
            Some(k) => idents(k),
            None => Seq::empty(),
        }) + idents(elements.last().value)
    }
}

pub open spec fn all_idents(nodes: Seq<NodeView>) -> Seq<Seq<char>>
    decreases nodes,
{
    if nodes.len() == 0 {
        Seq::empty()
    } else {
        all_idents(nodes.drop_last()) + idents(nodes.last())
    }
}

pub open spec fn opt_idents(node: Option<Box<NodeView>>) -> Seq<Seq<char>>
    decreases node,
{
    match node {
        Some(n) => idents(*n),
        None => Seq::empty(),
    }
}

/// The names with each `from` replaced by `to`.
pub open spec fn swapped(names: Seq<Seq<char>>, from: Seq<char>, to: Seq<char>) -> Seq<Seq<char>> {
    names.map_values(|x: Seq<char>| if x == from { to } else { x })
}

proof fn lemma_swapped_concat(a: Seq<Seq<char>>, b: Seq<Seq<char>>, from: Seq<char>, to: Seq<char>)
    ensures
        swapped(a + b, from, to) == swapped(a, from, to) + swapped(b, from, to),
{
    assert(swapped(a + b, from, to) =~= swapped(a, from, to) + swapped(b, from, to));
}

proof fn lemma_elements_renamed(elements: Seq<ElementView>, from: Seq<char>, to: Seq<char>)
    ensures
        element_idents(
            Seq::new(
                elements.len(),
                |i: int|
                    if 0 <= i < elements.len() {
                        rename_element(elements[i], from, to)
                    } else {
                        ElementView { key: None, value: NodeView::Empty }
                    },
            ),
        ) == swapped(element_idents(elements), from, to),
    decreases elements,
{
    let renamed = Seq::new(
        elements.len(),
        |i: int|
            if 0 <= i < elements.len() {
                rename_element(elements[i], from, to)
            } else {
                ElementView { key: None, value: NodeView::Empty }
            },
    );
    if elements.len() == 0 {
        assert(swapped(Seq::<Seq<char>>::empty(), from, to) =~= Seq::<Seq<char>>::empty());
    } else {
        let prefix = elements.drop_last();
        let last = elements.last();
        lemma_elements_renamed(prefix, from, to);
        let renamed_prefix = Seq::new(
            prefix.len(),
            |i: int|
                if 0 <= i < prefix.len() {
                    rename_element(prefix[i], from, to)
                } else {
                    ElementView { key: None, value: NodeView::Empty }
                },
        );
        assert(renamed.drop_last() =~= renamed_prefix);
        assert(renamed.last() == rename_element(last, from, to));
        let key_part = match last.key {
            Some(k) => idents(k),
            None => Seq::empty(),
        };
        match last.key {
            Some(k) => law_rename_swaps_the_identifiers(k, from, to),
            None => assert(swapped(Seq::<Seq<char>>::empty(), from, to) =~= Seq::<Seq<char>>::empty()),
        }
        law_rename_swaps_the_identifiers(last.value, from, to);
        lemma_swapped_concat(element_idents(prefix), key_part, from, to);
        lemma_swapped_concat(element_idents(prefix) + key_part, idents(last.value), from, to);
    }
}

proof fn lemma_arguments_renamed(nodes: Seq<NodeView>, from: Seq<char>, to: Seq<char>)
    ensures
        all_idents(
            Seq::new(
                nodes.len(),
                |i: int|
                    if 0 <= i < nodes.len() {
                        rename_node(nodes[i], from, to)
                    } else {
                        NodeView::Empty
                    },
            ),
        ) == swapped(all_idents(nodes), from, to),
    decreases nodes,
{
    let renamed = Seq::new(
        nodes.len(),
        |i: int|
            if 0 <= i < nodes.len() {
                rename_node(nodes[i], from, to)
            } else {
                NodeView::Empty
            },
    );
    if nodes.len() == 0 {
        assert(swapped(Seq::<Seq<char>>::empty(), from, to) =~= Seq::<Seq<char>>::empty());
    } else {
        let prefix = nodes.drop_last();
        lemma_arguments_renamed(prefix, from, to);
        let renamed_prefix = Seq::new(
            prefix.len(),
            |i: int|
                if 0 <= i < prefix.len() {
                    rename_node(prefix[i], from, to)
                } else {
                    NodeView::Empty
                },
        );
        assert(renamed.drop_last() =~= renamed_prefix);
        assert(renamed.last() == rename_node(nodes.last(), from, to));
        law_rename_swaps_the_identifiers(nodes.last(), from, to);
        lemma_swapped_concat(all_idents(prefix), idents(nodes.last()), from, to);
    }
}

proof fn lemma_opt_renamed(node: Option<Box<NodeView>>, from: Seq<char>, to: Seq<char>)
    ensures
        opt_idents(rename_opt(node, from, to)) == swapped(opt_idents(node), from, to),
    decreases node,
{
    match node {
        Some(n) => law_rename_swaps_the_identifiers(*n, from, to),
        None => assert(swapped(Seq::<Seq<char>>::empty(), from, to) =~= Seq::<Seq<char>>::empty()),
    }
}

/// Renaming an identifier changes the identifiers outside function
/// literals, and only them: each `from` among them becomes `to`, every other
/// name stays, in the same order. Identifiers inside function literal
/// bodies are not touched (the function literal is kept whole).
pub proof fn law_rename_swaps_the_identifiers(n: NodeView, from: Seq<char>, to: Seq<char>)
    ensures
        idents(rename_node(n, from, to)) == swapped(idents(n), from, to),
        n is FunctionLiteral ==> rename_node(n, from, to) == n,
    decreases n,
{
    match n {
        NodeView::Identifier(t) => {
            assert(swapped(seq![t], from, to) =~= seq![if t == from { to } else { t }]);
        },
        NodeView::CompositeLiteral { elements, .. } => {
            lemma_elements_renamed(elements, from, to);
            let renamed = rename_node(n, from, to);
            assert(renamed->CompositeLiteral_elements =~= Seq::new(
                elements.len(),
                |i: int|
                    if 0 <= i < elements.len() {
                        rename_element(elements[i], from, to)
                    } else {
                        ElementView { key: None, value: NodeView::Empty }
                    },
            ));
        },
        NodeView::Call { callee, arguments } => {
            law_rename_swaps_the_identifiers(*callee, from, to);
            lemma_arguments_renamed(arguments, from, to);
            let renamed = rename_node(n, from, to);
            assert(renamed->Call_arguments =~= Seq::new(
                arguments.len(),
                |i: int|
                    if 0 <= i < arguments.len() {
                        rename_node(arguments[i], from, to)
                    } else {
                        NodeView::Empty
                    },
            ));
            lemma_swapped_concat(idents(*callee), all_idents(arguments), from, to);
        },
        NodeView::Instantiation { base, .. }
        | NodeView::Selector { base, .. }
        | NodeView::TypeAssertion { base, .. } => law_rename_swaps_the_identifiers(*base, from, to),
        NodeView::Index { base, index } => {
            law_rename_swaps_the_identifiers(*base, from, to);
            law_rename_swaps_the_identifiers(*index, from, to);
            lemma_swapped_concat(idents(*base), idents(*index), from, to);
        },
        NodeView::Slice { base, low, high, max } => {
            law_rename_swaps_the_identifiers(*base, from, to);
            lemma_opt_renamed(low, from, to);
            lemma_opt_renamed(high, from, to);
            lemma_opt_renamed(max, from, to);
            lemma_swapped_concat(idents(*base), opt_idents(low), from, to);
            lemma_swapped_concat(idents(*base) + opt_idents(low), opt_idents(high), from, to);
            lemma_swapped_concat(idents(*base) + opt_idents(low) + opt_idents(high), opt_idents(max), from, to);
        },
        NodeView::Unary { operand, .. }
        | NodeView::Conversion { operand, .. }
        | NodeView::AddressOf(operand)
        | NodeView::Dereference(operand)
        | NodeView::Spread(operand) => law_rename_swaps_the_identifiers(*operand, from, to),
        NodeView::Binary { left, right, .. } => {
            law_rename_swaps_the_identifiers(*left, from, to);
            law_rename_swaps_the_identifiers(*right, from, to);
            lemma_swapped_concat(idents(*left), idents(*right), from, to);
        },
        _ => {
            assert(swapped(Seq::<Seq<char>>::empty(), from, to) =~= Seq::<Seq<char>>::empty());
        },
    }
}

/// How many of the names are `name`.
pub open spec fn count_name(names: Seq<Seq<char>>, name: Seq<char>) -> nat
    decreases names.len(),
{
    if names.len() == 0 {
        0
    } else {
        count_name(names.drop_last(), name) + if names.last() == name {
            1nat
        } else {
            0nat
        }
    }
}

proof fn lemma_count_name_concat(a: Seq<Seq<char>>, b: Seq<Seq<char>>, name: Seq<char>)
    ensures
        count_name(a + b, name) == count_name(a, name) + count_name(b, name),
    decreases b.len(),
{
    if b.len() == 0 {
        assert(a + b =~= a);
    } else {
        assert((a + b).drop_last() =~= a + b.drop_last());
        assert((a + b).last() == b.last());
        lemma_count_name_concat(a, b.drop_last(), name);
    }
}

/// The exact number of reads of the analyses.
pub open spec fn total_reads(analyses: Seq<crate::cleanup::Analysis>) -> nat
    decreases analyses.len(),
{
    if analyses.len() == 0 {
        0
    } else {
        total_reads(analyses.drop_last()) + analyses.last().reads as nat
    }
}

proof fn lemma_total_reads_concat(a: Seq<crate::cleanup::Analysis>, b: Seq<crate::cleanup::Analysis>)
    ensures
        total_reads(a + b) == total_reads(a) + total_reads(b),
        crate::cleanup::all_ordered(a + b) == (crate::cleanup::all_ordered(a) && crate::cleanup::all_ordered(b)),
    decreases b.len(),
{
    if b.len() == 0 {
        assert(a + b =~= a);
    } else {
        assert((a + b).drop_last() =~= a + b.drop_last());
        assert((a + b).last() == b.last());
        lemma_total_reads_concat(a, b.drop_last());
    }
    if crate::cleanup::all_ordered(a + b) {
        assert forall|i: int| 0 <= i < a.len() implies #[trigger] a[i].ordered by {
            assert((a + b)[i] == a[i]);
        }
        assert forall|i: int| 0 <= i < b.len() implies #[trigger] b[i].ordered by {
            assert((a + b)[a.len() + i] == b[i]);
        }
    }
    if crate::cleanup::all_ordered(a) && crate::cleanup::all_ordered(b) {
        assert forall|i: int| 0 <= i < (a + b).len() implies #[trigger] (a + b)[i].ordered by {
            if i < a.len() {
                assert((a + b)[i] == a[i]);
            } else {
                assert((a + b)[i] == b[i - a.len()]);
            }
        }
    }
}

proof fn lemma_total_reads_one(x: crate::cleanup::Analysis)
    ensures
        total_reads(seq![x]) == x.reads,
        crate::cleanup::all_ordered(seq![x]) == x.ordered,
{
    assert(seq![x].drop_last() =~= Seq::<crate::cleanup::Analysis>::empty());
    assert(seq![x].last() == x);
    assert(total_reads(Seq::<crate::cleanup::Analysis>::empty()) == 0);
    if crate::cleanup::all_ordered(seq![x]) {
        assert(seq![x][0] == x);
    }
}

proof fn lemma_sum_reads_saturates(a: Seq<crate::cleanup::Analysis>)
    ensures
        crate::cleanup::sum_reads(a) == if total_reads(a) <= usize::MAX {
            total_reads(a)
        } else {
            usize::MAX as nat
        },
    decreases a.len(),
{
    if a.len() > 0 {
        lemma_sum_reads_saturates(a.drop_last());
    }
}

proof fn lemma_nodes_read_counts(nodes: Seq<NodeView>, temp: Seq<char>)
    requires
        crate::cleanup::all_ordered(crate::cleanup::node_analyses(nodes, temp)),
        total_reads(crate::cleanup::node_analyses(nodes, temp)) < usize::MAX,
    ensures
        total_reads(crate::cleanup::node_analyses(nodes, temp)) == count_name(all_idents(nodes), temp),
    decreases nodes, 0nat,
{
    if nodes.len() > 0 {
        let prefix = nodes.drop_last();
        let last = nodes.last();
        lemma_total_reads_concat(crate::cleanup::node_analyses(prefix, temp), seq![crate::cleanup::analysis_of(last, temp)]);
        lemma_total_reads_one(crate::cleanup::analysis_of(last, temp));
        lemma_count_name_concat(all_idents(prefix), idents(last), temp);
        lemma_nodes_read_counts(prefix, temp);
        law_ordered_reads_count_the_identifiers(last, temp);
    }
}

proof fn lemma_elements_read_counts(elements: Seq<ElementView>, temp: Seq<char>)
    requires
        crate::cleanup::all_ordered(crate::cleanup::element_analyses(elements, temp)),
        total_reads(crate::cleanup::element_analyses(elements, temp)) < usize::MAX,
    ensures
        total_reads(crate::cleanup::element_analyses(elements, temp)) == count_name(element_idents(elements), temp),
    decreases elements, 0nat,
{
    if elements.len() > 0 {
        let prefix = elements.drop_last();
        let last = elements.last();
        let key_analyses = match last.key {
            Some(k) => seq![crate::cleanup::analysis_of(k, temp)],
            None => Seq::empty(),
        };
        let key_idents = match last.key {
            Some(k) => idents(k),
            None => Seq::empty(),
        };
        let value_analysis = crate::cleanup::analysis_of(last.value, temp);
        lemma_total_reads_concat(crate::cleanup::element_analyses(prefix, temp), key_analyses);
        lemma_total_reads_concat(crate::cleanup::element_analyses(prefix, temp) + key_analyses, seq![value_analysis]);
        lemma_total_reads_one(value_analysis);
        lemma_count_name_concat(element_idents(prefix), key_idents, temp);
        lemma_count_name_concat(element_idents(prefix) + key_idents, idents(last.value), temp);
        lemma_elements_read_counts(prefix, temp);
        law_ordered_reads_count_the_identifiers(last.value, temp);
        match last.key {
            Some(k) => {
                lemma_total_reads_one(crate::cleanup::analysis_of(k, temp));
                law_ordered_reads_count_the_identifiers(k, temp);
            },
            None => {},
        }
    }
}

proof fn lemma_opt_read_counts(node: Option<Box<NodeView>>, temp: Seq<char>)
    requires
        crate::cleanup::all_ordered(crate::cleanup::opt_analyses(node, temp)),
        total_reads(crate::cleanup::opt_analyses(node, temp)) < usize::MAX,
    ensures
        total_reads(crate::cleanup::opt_analyses(node, temp)) == count_name(opt_idents(node), temp),
    decreases node, 0nat,
{
    match node {
        Some(n) => {
            lemma_total_reads_one(crate::cleanup::analysis_of(*n, temp));
            law_ordered_reads_count_the_identifiers(*n, temp);
        },
        None => {},
    }
}

/// Where a node reads the temporary in an order the rename keeps, the reads
/// it counts (below the largest `usize`, where counting saturates) are
/// exactly the identifiers named the temporary outside its function
/// literals, which then read it nowhere.
pub proof fn law_ordered_reads_count_the_identifiers(n: NodeView, temp: Seq<char>)
    requires
        crate::cleanup::analysis_of(n, temp).ordered,
        crate::cleanup::analysis_of(n, temp).reads < usize::MAX,
    ensures
        crate::cleanup::analysis_of(n, temp).reads == count_name(idents(n), temp),
    decreases n, 2nat,
{
    let children = crate::cleanup::child_analyses(n, temp);
    match n {
        NodeView::Identifier(t) => {
            assert(seq![t].drop_last() =~= Seq::<Seq<char>>::empty());
            assert(seq![t].last() == t);
            assert(count_name(Seq::<Seq<char>>::empty(), temp) == 0);
        },
        NodeView::FunctionLiteral { .. } => {},
        NodeView::Verbatim(_) => {},
        _ => {
            assert(crate::cleanup::all_ordered(children));
            lemma_sum_reads_saturates(children);
            assert(total_reads(children) < usize::MAX);
            match n {
                NodeView::CompositeLiteral { elements, .. } => {
                    lemma_elements_read_counts(elements, temp);
                },
                NodeView::Call { callee, arguments } => {
                    let head = seq![crate::cleanup::analysis_of(*callee, temp)];
                    lemma_total_reads_concat(head, crate::cleanup::node_analyses(arguments, temp));
                    lemma_total_reads_one(crate::cleanup::analysis_of(*callee, temp));
                    lemma_count_name_concat(idents(*callee), all_idents(arguments), temp);
                    law_ordered_reads_count_the_identifiers(*callee, temp);
                    lemma_nodes_read_counts(arguments, temp);
                },
                NodeView::Instantiation { base, .. }
                | NodeView::Selector { base, .. }
                | NodeView::TypeAssertion { base, .. } => {
                    lemma_total_reads_one(crate::cleanup::analysis_of(*base, temp));
                    law_ordered_reads_count_the_identifiers(*base, temp);
                },
                NodeView::Index { base, index } => {
                    let a = crate::cleanup::analysis_of(*base, temp);
                    let b = crate::cleanup::analysis_of(*index, temp);
                    assert(children =~= seq![a] + seq![b]);
                    lemma_total_reads_concat(seq![a], seq![b]);
                    lemma_total_reads_one(a);
                    lemma_total_reads_one(b);
                    lemma_count_name_concat(idents(*base), idents(*index), temp);
                    law_ordered_reads_count_the_identifiers(*base, temp);
                    law_ordered_reads_count_the_identifiers(*index, temp);
                },
                NodeView::Binary { left, right, .. } => {
                    let a = crate::cleanup::analysis_of(*left, temp);
                    let b = crate::cleanup::analysis_of(*right, temp);
                    assert(children =~= seq![a] + seq![b]);
                    lemma_total_reads_concat(seq![a], seq![b]);
                    lemma_total_reads_one(a);
                    lemma_total_reads_one(b);
                    lemma_count_name_concat(idents(*left), idents(*right), temp);
                    law_ordered_reads_count_the_identifiers(*left, temp);
                    law_ordered_reads_count_the_identifiers(*right, temp);
                },
                NodeView::Slice { base, low, high, max } => {
                    let a = seq![crate::cleanup::analysis_of(*base, temp)];
                    let l = crate::cleanup::opt_analyses(low, temp);
                    let h = crate::cleanup::opt_analyses(high, temp);
                    let m = crate::cleanup::opt_analyses(max, temp);
                    lemma_total_reads_concat(a, l);
                    lemma_total_reads_concat(a + l, h);
                    lemma_total_reads_concat(a + l + h, m);
                    lemma_total_reads_one(crate::cleanup::analysis_of(*base, temp));
                    lemma_count_name_concat(idents(*base), opt_idents(low), temp);
                    lemma_count_name_concat(idents(*base) + opt_idents(low), opt_idents(high), temp);
                    lemma_count_name_concat(idents(*base) + opt_idents(low) + opt_idents(high), opt_idents(max), temp);
                    law_ordered_reads_count_the_identifiers(*base, temp);
                    lemma_opt_read_counts(low, temp);
                    lemma_opt_read_counts(high, temp);
                    lemma_opt_read_counts(max, temp);
                },
                NodeView::Unary { operand, .. }
                | NodeView::Conversion { operand, .. }
                | NodeView::AddressOf(operand)
                | NodeView::Dereference(operand)
                | NodeView::Spread(operand) => {
                    lemma_total_reads_one(crate::cleanup::analysis_of(*operand, temp));
                    law_ordered_reads_count_the_identifiers(*operand, temp);
                },
                _ => {},
            }
        },
    }
}

/// Where a rename of the temporary's one read goes ahead, the sibling it
/// goes to holds exactly one identifier named the temporary outside its
/// function literals, and the rename turns exactly that one into the source:
/// every other identifier of the siblings stays, and so does every other
/// sibling.
pub proof fn law_the_rename_replaces_exactly_one_read(
    siblings: Seq<crate::model::ExprView>,
    written: Option<int>,
    temp: Seq<char>,
    source: Seq<char>,
    r: int,
)
    requires
        crate::aliases::rename_target(crate::aliases::sibling_analyses(siblings, temp), written) == Some(r),
    ensures
        0 <= r < siblings.len(),
        count_name(idents(siblings[r].node), temp) == 1,
        idents(crate::aliases::renamed_expr(siblings[r], temp, source).node) == swapped(idents(siblings[r].node), temp, source),
        crate::aliases::rename_in_spec(siblings, written, temp, source) == Some(
            siblings.update(r, crate::aliases::renamed_expr(siblings[r], temp, source)),
        ),
{
    let analyses = crate::aliases::sibling_analyses(siblings, temp);
    crate::aliases::lemma_first_reader_bounds(analyses);
    assert(analyses[r] == crate::cleanup::analysis_of(siblings[r].node, temp));
    law_ordered_reads_count_the_identifiers(siblings[r].node, temp);
    law_rename_swaps_the_identifiers(siblings[r].node, temp, source);
}

} // verus!
