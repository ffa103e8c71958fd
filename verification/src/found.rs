//! Returning a found element from inside its search loop, and the cleanup
//! that runs every rewrite over a lowered body.
//!
//! A search lowers to
//!
//! ```text
//! var value T        // where an element is kept
//! flag := false
//! for ... { ...; if cond { value = element; flag = true; break } }
//! if !flag { return failure }
//! return success
//! ```
//!
//! and reads better as a loop that returns `success` at the hit, followed by
//! `return failure`.

use crate::aliases::renamed_expr;
use crate::bodies::{IfPlan, LoopPlan, LoweredBlock, LoweredStatement};
use crate::cleanup::{
    false_define, false_define_of, flag_guarded_return_of, found_hit, found_hit_of, NameUses,
};
use crate::lists::ListRewrite;
use crate::model::{expr_list_view, stmt_list_view, ExprView, IfView, LoopView, StmtView};
use crate::temps::{bindings_in, reads_in};
use crate::values::GoExpression;
use vstd::prelude::*;
use vstd::pervasive::VecAdditionalExecFns;

verus! {

/// Where a search that returns what it found stands in a list, and its names.
pub struct FoundView {
    pub declares_at: int,
    pub loop_at: int,
    pub flag: Seq<char>,
    pub value: Option<Seq<char>>,
    pub element: Option<Seq<char>>,
}

/// `var name T` with no value, right before `at`.
pub open spec fn declared_value(block: Seq<StmtView>, at: int) -> Option<Seq<char>> {
    if 1 <= at <= block.len() {
        match block[at - 1] {
            StmtView::VarDecl { name, value, .. } => if value is None {
                Some(name)
            } else {
                None
            },
            _ => None,
        }
    } else {
        None
    }
}

/// The search at the end of the list: a `flag := false` (after the
/// declaration of the value, where there is one), the loop whose last
/// statement is the hit, `if !flag { return failure }` and `return success`.
pub open spec fn found_loop_return_of(block: Seq<StmtView>) -> Option<FoundView> {
    if block.len() < 4 {
        None
    } else {
        let loop_at = block.len() - 3;
        let define_at = loop_at - 1;
        match false_define_of(block[define_at]) {
            None => None,
            Some(flag) => {
                let value = declared_value(block, define_at);
                let declares_at = if value is Some {
                    define_at - 1
                } else {
                    define_at
                };
                match block[loop_at] {
                    StmtView::Loop(plan) => if plan.body.len() == 0 {
                        None
                    } else {
                        match found_hit_of(plan.body.last(), flag, value) {
                            Some(element) => if flag_guarded_return_of(block[loop_at + 1], flag) is Some
                                && block[loop_at + 2] is Return {
                                Some(FoundView { declares_at, loop_at, flag, value, element })
                            } else {
                                None
                            },
                            None => None,
                        }
                    },
                    _ => None,
                }
            },
        }
    }
}

/// The flag and the value are each bound once and read twice: by the
/// search itself and nowhere else.
pub open spec fn only_the_search_reads(block: Seq<StmtView>, found: FoundView) -> bool {
    &&& reads_in(block, found.flag) == 2
    &&& bindings_in(block, found.flag) == 1
    &&& match found.value {
        Some(v) => reads_in(block, v) == 2 && bindings_in(block, v) == 1,
        None => true,
    }
}

/// The returned values, with the kept value read as the element itself.
pub open spec fn renamed_success(values: Seq<ExprView>, value: Option<Seq<char>>, element: Option<Seq<char>>) -> Seq<
    ExprView,
> {
    match (value, element) {
        (Some(v), Some(e)) => Seq::new(values.len(), |i: int| renamed_expr(values[i], v, e)),
        _ => values,
    }
}

/// The loop with its hit returning `success` at once.
pub open spec fn loop_returning(plan: LoopView, success: Seq<ExprView>) -> LoopView {
    let hit = plan.body.last()->If_0;
    LoopView {
        body: plan.body.update(
            plan.body.len() - 1,
            StmtView::If(IfView { then_body: seq![StmtView::Return(success)], ..hit }),
        ),
        ..plan
    }
}

/// The search rewritten: the declarations of the flag and the value go, the
/// hit returns the success values, and the failure values follow the loop.
pub open spec fn search_returning(block: Seq<StmtView>, found: FoundView) -> Seq<StmtView> {
    let success = renamed_success(block[found.loop_at + 2]->Return_0, found.value, found.element);
    let failure = flag_guarded_return_of(block[found.loop_at + 1], found.flag).unwrap();
    block.take(found.declares_at) + seq![
        StmtView::Loop(loop_returning(block[found.loop_at]->Loop_0, success)),
        StmtView::Return(failure),
    ]
}

/// The list with a search at its end that only it reads rewritten to return
/// from the loop; any other list as it is.
pub open spec fn found_returned(block: Seq<StmtView>) -> Seq<StmtView> {
    match found_loop_return_of(block) {
        Some(found) => if only_the_search_reads(block, found) {
            search_returning(block, found)
        } else {
            block
        },
        None => block,
    }
}

/// The rewritten list keeps the statements before the declarations and the
/// loop but for its last statement, whose branch returns the success values
/// (the kept value read as the element); `return failure` follows the loop.
pub open spec fn search_rewritten_as_stated(block: Seq<StmtView>, found: FoundView) -> bool {
    let result = found_returned(block);
    let plan = block[found.loop_at]->Loop_0;
    let after = result[found.declares_at]->Loop_0;
    &&& result.len() == found.declares_at + 2
    &&& result.take(found.declares_at) == block.take(found.declares_at)
    &&& result[found.declares_at] is Loop
    &&& after.prologue == plan.prologue && after.header == plan.header && after.kind == plan.kind
    &&& after.body.len() == plan.body.len()
    &&& after.body.take(plan.body.len() - 1) == plan.body.take(plan.body.len() - 1)
    &&& after.body.last()->If_0.then_body == seq![
        StmtView::Return(renamed_success(block[found.loop_at + 2]->Return_0, found.value, found.element)),
    ]
    &&& after.body.last()->If_0.condition == plan.body.last()->If_0.condition
    &&& result.last() == StmtView::Return(flag_guarded_return_of(block[found.loop_at + 1], found.flag).unwrap())
}

/// Returning found elements directly leaves a list that does not end in a
/// search, or whose flag or value something else reads, as it is. Where it
/// rewrites, the statements before the declarations of the value and the
/// flag stay, the loop stays but for the branch of its last statement,
/// which now returns the success values, and `return failure` follows the
/// loop in place of `if !flag { return failure }` and `return success`.
pub proof fn law_found_return_keeps_the_rest(block: Seq<StmtView>)
    ensures
        match found_loop_return_of(block) {
            Some(found) => if only_the_search_reads(block, found) {
                search_rewritten_as_stated(block, found)
            } else {
                found_returned(block) == block
            },
            None => found_returned(block) == block,
        },
{
    match found_loop_return_of(block) {
        Some(found) => {
            if only_the_search_reads(block, found) {
                let result = found_returned(block);
                let plan = block[found.loop_at]->Loop_0;
                assert(found.declares_at <= found.loop_at);
                assert(result.take(found.declares_at) =~= block.take(found.declares_at));
                let after = result[found.declares_at]->Loop_0;
                assert(after.body.take(plan.body.len() - 1) =~= plan.body.take(plan.body.len() - 1));
            }
        },
        None => {},
    }
}

} // verus!

verus! {

/// A search found at the end of a list: where it stands and its names.
pub struct FoundLoopReturn {
    pub declares_at: usize,
    pub loop_at: usize,
    pub flag: String,
    pub value: Option<String>,
    pub element: Option<String>,
}

impl View for FoundLoopReturn {
    type V = FoundView;

    open spec fn view(&self) -> FoundView {
        FoundView {
            declares_at: self.declares_at as int,
            loop_at: self.loop_at as int,
            flag: self.flag@,
            value: crate::model::opt_text(self.value),
            element: crate::model::opt_text(self.element),
        }
    }
}

/// The value's name from `var name T` with no value.
fn declared_value_name(statement: &LoweredStatement) -> (name: Option<String>)
    ensures
        crate::model::opt_text(name) == match statement@ {
            StmtView::VarDecl { name, value, .. } => if value is None {
                Some(name)
            } else {
                None
            },
            _ => None,
        },
{
    match statement {
        LoweredStatement::VarDecl { name, value: None, .. } => Some(name.as_str().to_owned()),
        _ => None,
    }
}

/// The search at the end of the list that returns what it found, if the list
/// ends in one.
pub fn found_loop_return(block: &Vec<LoweredStatement>) -> (found: Option<FoundLoopReturn>)
    ensures
        match found {
            Some(f) => found_loop_return_of(stmt_list_view(block)) == Some(f@),
            None => found_loop_return_of(stmt_list_view(block)) is None,
        },
{
    let ghost bv = stmt_list_view(block);
    if block.len() < 4 {
        return None;
    }
    let loop_at = block.len() - 3;
    let define_at = loop_at - 1;
    assert(bv[define_at as int] == block@[define_at as int]@);
    assert(bv[loop_at as int] == block@[loop_at as int]@);
    assert(bv[loop_at + 1] == block@[loop_at + 1]@);
    assert(bv[loop_at + 2] == block@[loop_at + 2]@);
    let flag = match false_define(&block[define_at]) {
        Some(flag) => flag,
        None => {
            return None;
        },
    };
    let value = if define_at >= 1 {
        assert(bv[define_at - 1] == block@[define_at - 1]@);
        declared_value_name(&block[define_at - 1])
    } else {
        None
    };
    assert(crate::model::opt_text(value) == declared_value(bv, define_at as int));
    let declares_at = if value.is_some() {
        define_at - 1
    } else {
        define_at
    };
    let plan = match &block[loop_at] {
        LoweredStatement::Loop(plan) => plan,
        _ => {
            return None;
        },
    };
    let body = &plan.body.statements;
    assert(plan.view_loop().body == stmt_list_view(body));
    if body.len() == 0 {
        return None;
    }
    assert(stmt_list_view(body).last() == body@[body@.len() - 1]@);
    let value_text = match &value {
        Some(v) => Some(v.as_str()),
        None => None,
    };
    let element = match found_hit(&body[body.len() - 1], flag.as_str(), value_text) {
        Some(element) => element,
        None => {
            return None;
        },
    };
    let guarded = crate::cleanup::flag_guarded_return(&block[loop_at + 1], flag.as_str()).is_some();
    let ends_in_return = match &block[loop_at + 2] {
        LoweredStatement::Return(_) => true,
        _ => false,
    };
    if !guarded || !ends_in_return {
        return None;
    }
    Some(FoundLoopReturn { declares_at, loop_at, flag, value, element })
}

} // verus!

verus! {

fn take_last_statement(list: &mut Vec<LoweredStatement>) -> (s: LoweredStatement)
    requires
        old(list)@.len() > 0,
    ensures
        s == old(list)@.last(),
        final(list)@ == old(list)@.drop_last(),
{
    match list.pop() {
        Some(s) => s,
        None => LoweredStatement::UnreachablePanic,
    }
}

/// Renames, in each value, the kept value to the element.
fn rename_values(values: Vec<GoExpression>, value: &Option<String>, element: &Option<String>) -> (r: Vec<GoExpression>)
    ensures
        expr_list_view(&r) == renamed_success(
            expr_list_view(&values),
            crate::model::opt_text(*value),
            crate::model::opt_text(*element),
        ),
{
    let (v, e) = match (value, element) {
        (Some(v), Some(e)) => (v, e),
        _ => {
            return values;
        },
    };
    let ghost before = expr_list_view(&values);
    let mut values = values;
    let mut i: usize = 0;
    while i < values.len()
        invariant
            values@.len() == before.len(),
            i <= values@.len(),
            forall|j: int| i <= j < values@.len() ==> (#[trigger] values@[j])@ == before[j],
            forall|j: int| 0 <= j < i ==> (#[trigger] values@[j])@ == renamed_expr(before[j], v@, e@),
        decreases values@.len() - i,
    {
        let mut item = GoExpression::empty();
        values.set_and_swap(i, &mut item);
        item.rename_identifier(v.as_str(), e.as_str());
        values.set_and_swap(i, &mut item);
        i = i + 1;
    }
    assert(expr_list_view(&values) =~= renamed_success(before, Some(v@), Some(e@)));
    values
}

/// The failure values of `if !flag { return failure }`.
fn guarded_values(guard: LoweredStatement, Ghost(flag): Ghost<Seq<char>>) -> (values: Vec<GoExpression>)
    requires
        flag_guarded_return_of(guard@, flag) is Some,
    ensures
        expr_list_view(&values) == flag_guarded_return_of(guard@, flag).unwrap(),
{
    let ghost gv = guard@;
    match guard {
        LoweredStatement::If(plan) => {
            assert(gv == StmtView::If(plan@));
            let IfPlan { condition_setup: _, initializer: _, condition: _, then_body, else_arm: _ } = plan;
            let mut statements = then_body.statements;
            assert(stmt_list_view(&statements)[0] == statements@[0]@);
            match take_last_statement(&mut statements) {
                LoweredStatement::Return(values) => values,
                _ => Vec::new(),
            }
        },
        _ => Vec::new(),
    }
}

/// The loop with its last statement, the hit, returning `success` at once.
fn loop_with_return(statement: LoweredStatement, success: Vec<GoExpression>) -> (r: LoweredStatement)
    requires
        statement@ is Loop,
        statement@->Loop_0.body.len() > 0,
        statement@->Loop_0.body.last() is If,
    ensures
        r@ == StmtView::Loop(loop_returning(statement@->Loop_0, expr_list_view(&success))),
{
    let ghost sv = statement@;
    match statement {
        LoweredStatement::Loop(plan) => {
            let ghost pv = plan.view_loop();
            let LoopPlan { prologue, kind, header, body } = plan;
            let mut statements = body.statements;
            let ghost bv = stmt_list_view(&statements);
            assert(bv.last() == statements@[statements@.len() - 1]@);
            let last = take_last_statement(&mut statements);
            match last {
                LoweredStatement::If(hit) => {
                    let ghost hv = hit@;
                    let IfPlan { condition_setup, initializer, condition, then_body: _, else_arm } = hit;
                    let mut returned: Vec<LoweredStatement> = Vec::new();
                    returned.push(LoweredStatement::Return(success));
                    assert(stmt_list_view(&returned) =~= seq![StmtView::Return(expr_list_view(&success))]);
                    let hit = IfPlan { condition_setup, initializer, condition, then_body: LoweredBlock { statements: returned }, else_arm };
                    assert(hit@ == IfView { then_body: seq![StmtView::Return(expr_list_view(&success))], ..hv });
                    let ghost hit_view = hit@;
                    statements.push(LoweredStatement::If(hit));
                    assert(stmt_list_view(&statements) =~= bv.update(bv.len() - 1, StmtView::If(hit_view)));
                },
                other => {
                    statements.push(other);
                },
            }
            let plan = LoopPlan { prologue, kind, header, body: LoweredBlock { statements } };
            assert(plan.view_loop() == loop_returning(pv, expr_list_view(&success)));
            LoweredStatement::Loop(plan)
        },
        other => other,
    }
}

/// The search at the end of the list rewritten to return from its loop.
fn returned_directly(list: Vec<LoweredStatement>, found: FoundLoopReturn) -> (r: Vec<LoweredStatement>)
    requires
        found_loop_return_of(stmt_list_view(&list)) == Some(found@),
    ensures
        stmt_list_view(&r) == search_returning(stmt_list_view(&list), found@),
{
    let ghost lv = stmt_list_view(&list);
    let ghost f = found@;
    let mut list = list;
    let n = list.len();
    assert(lv[n - 1] == list@[n - 1]@);
    assert(lv[n - 2] == list@[n - 2]@);
    assert(lv[n - 3] == list@[n - 3]@);
    let last = take_last_statement(&mut list);
    let success = match last {
        LoweredStatement::Return(values) => values,
        _ => Vec::new(),
    };
    let success = rename_values(success, &found.value, &found.element);
    let guard = take_last_statement(&mut list);
    let failure = guarded_values(guard, Ghost(f.flag));
    let searched = take_last_statement(&mut list);
    let searched = loop_with_return(searched, success);
    let ghost loop_view = searched@;
    list.truncate(found.declares_at);
    assert(stmt_list_view(&list) =~= lv.take(f.declares_at));
    list.push(searched);
    list.push(LoweredStatement::Return(failure));
    assert(stmt_list_view(&list) =~= lv.take(f.declares_at) + seq![loop_view, StmtView::Return(expr_list_view(&failure))]);
    list
}

/// Makes the search at the end of one list return from inside its loop.
pub struct FoundReturns;

impl ListRewrite for FoundReturns {
    open spec fn rewritten(&self, statements: Seq<StmtView>) -> Seq<StmtView> {
        found_returned(statements)
    }

    fn rewrite(&self, statements: Vec<LoweredStatement>) -> (r: Vec<LoweredStatement>) {
        let found = match found_loop_return(&statements) {
            Some(found) => found,
            None => {
                return statements;
            },
        };
        let uses = NameUses::of(&statements);
        if uses.reads(found.flag.as_str()) != 2 || uses.bindings(found.flag.as_str()) != 1 {
            return statements;
        }
        let value_ok = match &found.value {
            Some(v) => uses.reads(v.as_str()) == 2 && uses.bindings(v.as_str()) == 1,
            None => true,
        };
        if !value_ok {
            return statements;
        }
        returned_directly(statements, found)
    }
}

/// Makes each search that ends a list, and that nothing else reads the flag
/// or the kept value of, return from inside its loop.
pub fn return_found_elements_directly(statements: &mut Vec<LoweredStatement>)
    ensures
        stmt_list_view(final(statements)) == crate::lists::tree_rewritten(FoundReturns, stmt_list_view(old(statements))),
{
    crate::lists::for_each_statements_mut(statements, &FoundReturns);
}

} // verus!

verus! {

// ---------------------------------------------------------------------------
// All the rewrites
// ---------------------------------------------------------------------------

/// `after` is `before` with its name aliases inlined, counted over `before`.
pub open spec fn name_aliases_inlined(before: Seq<StmtView>, after: Seq<StmtView>) -> bool {
    exists|uses: NameUses|
        #[trigger] uses.describes(before) && after == crate::lists::tree_rewritten(
            crate::aliases::NameAliases { uses },
            before,
        )
}

/// `after` is `before` with its return aliases inlined, counted over
/// `before`.
pub open spec fn return_aliases_inlined(before: Seq<StmtView>, after: Seq<StmtView>) -> bool {
    exists|uses: NameUses|
        #[trigger] uses.describes(before) && after == crate::lists::tree_rewritten(
            crate::cleanup::ReturnAliases { uses },
            before,
        )
}

/// The rewrites that follow the inlining of aliases, in order: unread
/// temporaries dropped, compound assignments folded, found elements returned
/// from their loops, terminal `else`s unwrapped.
pub open spec fn later_rewrites(ss: Seq<StmtView>) -> Seq<StmtView> {
    let dropped = crate::temps::drop_rounds(ss, crate::temps::round_bound());
    let folded = crate::lists::tree_rewritten(
        crate::cleanup::EachStatement { which: crate::cleanup::StatementRewrite::FoldCompound },
        dropped,
    );
    let returned = crate::lists::tree_rewritten(FoundReturns, folded);
    crate::lists::tree_rewritten(
        crate::cleanup::EachStatement { which: crate::cleanup::StatementRewrite::UnwrapTerminalElse },
        returned,
    )
}

/// Runs every cleanup rewrite over the body, in order: name aliases, return
/// aliases, unread temporaries, compound assignments, found elements,
/// terminal `else`s.
pub fn clean_up(statements: &mut Vec<LoweredStatement>)
    ensures
        exists|inlined: Seq<StmtView>, returned: Seq<StmtView>|
            #![trigger name_aliases_inlined(stmt_list_view(old(statements)), inlined), return_aliases_inlined(inlined, returned)]
            name_aliases_inlined(stmt_list_view(old(statements)), inlined) && return_aliases_inlined(inlined, returned)
                && stmt_list_view(final(statements)) == later_rewrites(returned),
{
    let ghost start = stmt_list_view(statements);
    crate::aliases::inline_name_aliases(statements);
    let ghost inlined = stmt_list_view(statements);
    assert(name_aliases_inlined(start, inlined));
    crate::cleanup::inline_return_aliases(statements);
    let ghost returned = stmt_list_view(statements);
    assert(return_aliases_inlined(inlined, returned));
    crate::temps::drop_unread_temps(statements);
    crate::cleanup::fold_compound_assignments(statements);
    return_found_elements_directly(statements);
    crate::cleanup::unwrap_terminal_else(statements);
    assert(stmt_list_view(statements) == later_rewrites(returned));
}

} // verus!
