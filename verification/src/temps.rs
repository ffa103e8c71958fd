//! Dropping temporaries that nothing reads: a `name := value` whose value does
//! no work, where every read of the name is a `_ = name` that only silences
//! Go's unused-variable check.

use crate::bodies::LoweredStatement;
use crate::cleanup::{
    all_assigned, all_bindings, all_written, count_of, discarded_name, discarded_name_of,
    identifier_names, pure_define, pure_define_of, read_tokens, EachStatement, NameUses,
    StatementRewrite,
};
use crate::go_expression::GoExpressionNode;
use crate::lists::{tree_map, tree_rewritten, ListRewrite};
use crate::model::{stmt_list_view, ExprView, NodeView, StmtView};
use crate::text::same_text;
use crate::walk::{node_views, node_walk, stmt_refs_view, stmts_preorder, stmts_walk};
use vstd::prelude::*;
use vstd::pervasive::VecAdditionalExecFns;

verus! {

/// How often the body reads the name.
pub open spec fn reads_in(ss: Seq<StmtView>, name: Seq<char>) -> nat {
    count_of(read_tokens(stmts_walk(ss)), name)
}

/// The reads of the name that are not whole assignments to it.
pub open spec fn value_reads_in(ss: Seq<StmtView>, name: Seq<char>) -> nat {
    let reads = reads_in(ss, name);
    let assigned = count_of(all_assigned(stmts_preorder(ss)), name);
    if reads >= assigned {
        (reads - assigned) as nat
    } else {
        0
    }
}

pub open spec fn bindings_in(ss: Seq<StmtView>, name: Seq<char>) -> nat {
    count_of(all_bindings(stmts_preorder(ss)), name)
}

pub open spec fn written_in(ss: Seq<StmtView>, name: Seq<char>) -> bool {
    all_written(stmts_preorder(ss)).contains(name)
}

/// How many of the statements are `_ = name`.
pub open spec fn discard_count(statements: Seq<StmtView>, name: Seq<char>) -> nat
    decreases statements.len(),
{
    if statements.len() == 0 {
        0
    } else {
        discard_count(statements.drop_last(), name) + if discarded_name_of(statements.last()) == Some(name) {
            1nat
        } else {
            0nat
        }
    }
}

/// Every name the value reads is also read somewhere else.
pub open spec fn sources_read_elsewhere(ss: Seq<StmtView>, value: ExprView) -> bool {
    let sources = identifier_names(node_walk(value.node));
    forall|i: int| 0 <= i < sources.len() ==> value_reads_in(ss, #[trigger] sources[i]) > 1
}

/// The name a statement defines for nothing: its value does no work, each of
/// its reads is a `_ = name`, it is bound once and never written through,
/// and dropping the value loses the last read of none of the names the value
/// reads.
pub open spec fn unread_define(ss: Seq<StmtView>, s: StmtView) -> Option<Seq<char>> {
    match pure_define_of(s) {
        Some((name, value)) => if value_reads_in(ss, name) == discard_count(stmts_preorder(ss), name)
            && bindings_in(ss, name) == 1 && !written_in(ss, name) && sources_read_elsewhere(ss, value) {
            Some(name)
        } else {
            None
        },
        None => None,
    }
}

/// The first statement, in visiting order, that defines a name for nothing.
pub open spec fn first_unread(ss: Seq<StmtView>, visited: Seq<StmtView>) -> Option<Seq<char>>
    decreases visited.len(),
{
    if visited.len() == 0 {
        None
    } else {
        match first_unread(ss, visited.drop_last()) {
            Some(name) => Some(name),
            None => unread_define(ss, visited.last()),
        }
    }
}

/// The statement neither defines `name` nor discards it.
pub open spec fn keeps(name: Seq<char>, s: StmtView) -> bool {
    &&& match pure_define_of(s) {
        Some((defined, _)) => defined != name,
        None => true,
    }
    &&& discarded_name_of(s) != Some(name)
}

/// The statements of the list that keep `name`.
pub open spec fn retained(name: Seq<char>, list: Seq<StmtView>) -> Seq<StmtView>
    decreases list.len(),
{
    if list.len() == 0 {
        list
    } else {
        retained(name, list.drop_last()) + if keeps(name, list.last()) {
            seq![list.last()]
        } else {
            Seq::empty()
        }
    }
}

pub open spec fn retain_fn(name: Seq<char>) -> spec_fn(Seq<StmtView>) -> Seq<StmtView> {
    |list: Seq<StmtView>| retained(name, list)
}

/// One round: the first temporary defined for nothing, with its definition
/// and its discards dropped from every list and each `else` left empty by
/// that dropped; `None` where there is no such temporary.
pub open spec fn drop_round(ss: Seq<StmtView>) -> Option<Seq<StmtView>> {
    match first_unread(ss, stmts_preorder(ss)) {
        Some(name) => Some(
            tree_rewritten(
                EachStatement { which: StatementRewrite::DropEmptyElse },
                tree_map(retain_fn(name), ss, crate::lists::depth_bound()),
            ),
        ),
        None => None,
    }
}

/// How many rounds may run at most: more than any body held in memory has
/// statements.
pub open spec fn round_bound() -> nat {
    usize::MAX as nat
}

/// Up to `rounds` rounds, stopping at the first that finds nothing.
pub open spec fn drop_rounds(ss: Seq<StmtView>, rounds: nat) -> Seq<StmtView>
    decreases rounds,
{
    if rounds == 0 {
        ss
    } else {
        match drop_round(ss) {
            Some(next) => drop_rounds(next, (rounds - 1) as nat),
            None => ss,
        }
    }
}

} // verus!

verus! {

/// Keeps, in one statement list, the statements that neither define nor
/// discard the name.
pub struct Retain {
    pub name: String,
}

fn keeps_name(statement: &LoweredStatement, name: &str) -> (r: bool)
    ensures
        r == keeps(name@, statement@),
{
    let defines = match pure_define(statement) {
        Some((defined, _)) => same_text(defined, name),
        None => false,
    };
    let discards = match discarded_name(statement) {
        Some(discarded) => same_text(discarded, name),
        None => false,
    };
    !defines && !discards
}

impl ListRewrite for Retain {
    open spec fn rewritten(&self, statements: Seq<StmtView>) -> Seq<StmtView> {
        retained(self.name@, statements)
    }

    fn rewrite(&self, statements: Vec<LoweredStatement>) -> (r: Vec<LoweredStatement>) {
        let ghost lv = stmt_list_view(&statements);
        let mut statements = statements;
        let mut kept: Vec<LoweredStatement> = Vec::new();
        assert(stmt_list_view(&kept) =~= retained(self.name@, lv.take(0)));
        let mut i: usize = 0;
        while i < statements.len()
            invariant
                statements@.len() == lv.len(),
                i <= lv.len(),
                forall|j: int| i <= j < lv.len() ==> (#[trigger] statements@[j])@ == lv[j],
                stmt_list_view(&kept) == retained(self.name@, lv.take(i as int)),
            decreases lv.len() - i,
        {
            proof {
                assert(lv.take(i + 1).drop_last() =~= lv.take(i as int));
                assert(lv.take(i + 1).last() == lv[i as int]);
            }
            let mut item = LoweredStatement::UnreachablePanic;
            statements.set_and_swap(i, &mut item);
            let ghost before = stmt_list_view(&kept);
            if keeps_name(&item, self.name.as_str()) {
                let ghost iv = item@;
                kept.push(item);
                assert(stmt_list_view(&kept) =~= before + seq![iv]);
            } else {
                assert(before + Seq::<StmtView>::empty() =~= before);
            }
            i = i + 1;
        }
        assert(lv.take(i as int) =~= lv);
        kept
    }
}

pub proof fn lemma_identifier_names_split(a: Seq<NodeView>, b: Seq<NodeView>)
    ensures
        identifier_names(a + b) == identifier_names(a) + identifier_names(b),
    decreases b.len(),
{
    if b.len() == 0 {
        assert(a + b =~= a);
        assert(identifier_names(a) + identifier_names(b) =~= identifier_names(a));
    } else {
        lemma_identifier_names_split(a, b.drop_last());
        assert((a + b).drop_last() =~= a + b.drop_last());
        assert((a + b).last() == b.last());
        let tail = match b.last() {
            NodeView::Identifier(name) => seq![name],
            _ => Seq::empty(),
        };
        assert(identifier_names(a) + identifier_names(b.drop_last()) + tail =~= identifier_names(a) + (identifier_names(b.drop_last()) + tail));
    }
}

/// How many of the visited statements are `_ = name`.
fn discards_of(visited: &Vec<&LoweredStatement>, name: &str) -> (n: usize)
    ensures
        n == discard_count(stmt_refs_view(visited@), name@),
{
    let ghost vv = stmt_refs_view(visited@);
    let mut n: usize = 0;
    let mut i: usize = 0;
    while i < visited.len()
        invariant
            vv == stmt_refs_view(visited@),
            i <= visited@.len(),
            n <= i,
            n == discard_count(vv.take(i as int), name@),
        decreases visited@.len() - i,
    {
        proof {
            assert(vv.take(i + 1).drop_last() =~= vv.take(i as int));
            assert(vv.take(i + 1).last() == visited@[i as int]@);
        }
        let hit = match discarded_name(visited[i]) {
            Some(d) => same_text(d, name),
            None => false,
        };
        if hit {
            n = n + 1;
        }
        i = i + 1;
    }
    assert(vv.take(i as int) =~= vv);
    n
}

/// Whether every name the value reads is read more than once in the body.
fn sources_read_twice(uses: &NameUses, value: &crate::values::GoExpression, Ghost(ss): Ghost<Seq<StmtView>>) -> (r: bool)
    requires
        uses.describes(ss),
    ensures
        r == sources_read_elsewhere(ss, value@),
{
    let nodes = value.node.visit();
    let ghost walk = node_walk(value@.node);
    let mut i: usize = 0;
    while i < nodes.len()
        invariant
            uses.describes(ss),
            node_views(nodes@) == walk,
            walk == node_walk(value@.node),
            i <= nodes@.len(),
            forall|j: int| 0 <= j < identifier_names(walk.take(i as int)).len() ==> value_reads_in(
                ss,
                #[trigger] identifier_names(walk.take(i as int))[j],
            ) > 1,
        decreases nodes@.len() - i,
    {
        let ghost prefix = identifier_names(walk.take(i as int));
        proof {
            assert(walk.take(i + 1).drop_last() =~= walk.take(i as int));
            assert(walk.take(i + 1).last() == nodes@[i as int]@);
        }
        match nodes[i] {
            GoExpressionNode::Identifier(source) => {
                assert(nodes@[i as int]@ == NodeView::Identifier(source@));
                let ghost next = identifier_names(walk.take(i + 1));
                assert(next == prefix + seq![source@]);
                if uses.value_reads(source.as_str()) <= 1 {
                    proof {
                        let all = identifier_names(walk);
                        lemma_identifier_names_split(walk.take(i + 1), walk.skip(i + 1));
                        assert(walk.take(i + 1) + walk.skip(i + 1) =~= walk);
                        assert(next[prefix.len() as int] == source@);
                        assert(all[prefix.len() as int] == source@);
                    }
                    return false;
                }
            },
            _ => {
                assert(identifier_names(walk.take(i + 1)) == prefix + Seq::<Seq<char>>::empty());
                assert(identifier_names(walk.take(i + 1)) =~= prefix);
            },
        }
        i = i + 1;
    }
    assert(walk.take(i as int) =~= walk);
    true
}

} // verus!

verus! {

pub proof fn lemma_first_unread_extends(ss: Seq<StmtView>, visited: Seq<StmtView>, k: int)
    requires
        0 <= k <= visited.len(),
        first_unread(ss, visited.take(k)) is Some,
    ensures
        first_unread(ss, visited) == first_unread(ss, visited.take(k)),
    decreases visited.len() - k,
{
    if k < visited.len() {
        assert(visited.take(k + 1).drop_last() =~= visited.take(k));
        lemma_first_unread_extends(ss, visited, k + 1);
    } else {
        assert(visited.take(k) =~= visited);
    }
}

/// The name the statement defines for nothing, if it does.
fn unread_name<'a>(
    uses: &NameUses,
    visited: &Vec<&LoweredStatement>,
    statement: &'a LoweredStatement,
    Ghost(ss): Ghost<Seq<StmtView>>,
) -> (found: Option<&'a str>)
    requires
        uses.describes(ss),
        stmt_refs_view(visited@) == stmts_preorder(ss),
    ensures
        match found {
            Some(name) => unread_define(ss, statement@) == Some(name@),
            None => unread_define(ss, statement@) is None,
        },
{
    match pure_define(statement) {
        Some((name, value)) => {
            let discards = discards_of(visited, name);
            if uses.value_reads(name) == discards && uses.bindings(name) == 1 && !uses.writes_contains(name)
                && sources_read_twice(uses, value, Ghost(ss)) {
                Some(name)
            } else {
                None
            }
        },
        None => None,
    }
}

/// The first temporary, in visiting order, that the body defines for
/// nothing.
fn unread_temp(statements: &Vec<LoweredStatement>) -> (found: Option<String>)
    ensures
        match found {
            Some(name) => first_unread(stmt_list_view(statements), stmts_preorder(stmt_list_view(statements)))
                == Some(name@),
            None => first_unread(stmt_list_view(statements), stmts_preorder(stmt_list_view(statements))) is None,
        },
{
    let ghost ss = stmt_list_view(statements);
    let ghost pre = stmts_preorder(ss);
    let uses = NameUses::of(statements);
    let visited = crate::walk::for_each_statement(statements);
    let mut k: usize = 0;
    while k < visited.len()
        invariant
            ss == stmt_list_view(statements),
            pre == stmts_preorder(ss),
            uses.describes(ss),
            stmt_refs_view(visited@) == pre,
            k <= visited@.len(),
            first_unread(ss, pre.take(k as int)) is None,
        decreases visited@.len() - k,
    {
        proof {
            assert(pre.take(k + 1).drop_last() =~= pre.take(k as int));
            assert(pre.take(k + 1).last() == visited@[k as int]@);
        }
        match unread_name(&uses, &visited, visited[k], Ghost(ss)) {
            Some(name) => {
                proof {
                    assert(first_unread(ss, pre.take(k + 1)) == Some(name@));
                    lemma_first_unread_extends(ss, pre, k + 1);
                }
                return Some(name.to_owned());
            },
            None => {},
        }
        k = k + 1;
    }
    assert(pre.take(k as int) =~= pre);
    None
}

/// Drops, round by round, each temporary defined by a value that does no
/// work and read only by `_ = name` discards: its definition and its
/// discards go, and each `else` that this leaves empty goes with them. The
/// rounds stop at the first that finds no such temporary. Each round drops
/// the definition it found, so a body held in memory runs out of
/// temporaries long before `round_bound()` rounds.
#[verifier::loop_isolation(false)]
pub fn drop_unread_temps(statements: &mut Vec<LoweredStatement>)
    ensures
        stmt_list_view(final(statements)) == drop_rounds(stmt_list_view(old(statements)), round_bound()),
{
    let mut left: usize = usize::MAX - 1;
    loop
        invariant
            drop_rounds(stmt_list_view(statements), (left + 1) as nat) == drop_rounds(
                stmt_list_view(old(statements)),
                round_bound(),
            ),
        decreases left,
    {
        let ghost before = stmt_list_view(statements);
        let found = unread_temp(statements);
        match found {
            None => {
                return;
            },
            Some(name) => {
                let ghost name_view = name@;
                let retain = Retain { name };
                crate::lists::for_each_statements_mut(statements, &retain);
                assert(crate::lists::pass_fn(retain) =~= retain_fn(name_view));
                crate::lists::for_each_statements_mut(
                    statements,
                    &EachStatement { which: StatementRewrite::DropEmptyElse },
                );
                assert(drop_round(before) == Some(stmt_list_view(statements)));
                assert(drop_rounds(before, (left + 1) as nat) == drop_rounds(stmt_list_view(statements), left as nat));
            },
        }
        if left == 0 {
            return;
        }
        left = left - 1;
    }
}

} // verus!
