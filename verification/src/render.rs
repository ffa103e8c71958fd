//! Go text of lowered statements, one line per simple statement, as a
//! function literal's body needs it.

use crate::bodies::{
    AssignForm, CompoundKind, Definition, ElseArm, IfPlan, LoopHeader, LoopKind, LoopPlan,
    LoopTransfer, LoweredBlock, LoweredStatement, SelectArmPlan, SelectStatementPlan,
    SwitchCasePlan, SwitchKind, SwitchStatementPlan,
};
use crate::go_expression::{FunctionLiteralLayout, Slot};
use crate::model::{
    arm_text, arms_text, case_text, cases_text, definition_text, expr_list_view, expr_text,
    exprs_text, function_body_text, header_text, if_text, joined_statements, label_text,
    lines_text, loop_header_text, names_text, opt_expr_text, renders_single_lines,
    stmt_list_view, switch_subject_text, texts, transfer_text, trim_newlines, arm_list_view,
    case_list_view, default_text, loop_text, select_text, switch_text, assign_text, compound_text, initializer_text, else_text, body_text, jump_text, const_text,
    return_text, simple_text, directed_text,
};
use crate::values::GoExpression;
use vstd::prelude::*;
use vstd::string::StrSliceExecFns;
use vstd::string::StringExecFns;

verus! {

/// The expression as it reads in an operand position.
pub fn expression_string(e: &GoExpression) -> (text: String)
    ensures
        text@ == expr_text(e@),
    decreases e, 0nat,
{
    e.node.text_in(Slot::free())
}

/// The expression as it reads in a statement header.
pub fn header_string(e: &GoExpression) -> (text: String)
    ensures
        text@ == header_text(e@),
    decreases e, 0nat,
{
    e.node.text_in(Slot::header())
}

/// The expressions separated by `, `.
pub fn expressions_string(es: &Vec<GoExpression>) -> (text: String)
    ensures
        text@ == exprs_text(expr_list_view(es)),
    decreases es, 0nat,
{
    let ghost ev = expr_list_view(es);
    let mut text = String::new();
    let mut i: usize = 0;
    while i < es.len()
        invariant
            ev == expr_list_view(es),
            ev.len() == es@.len(),
            i <= es@.len(),
            text@ == exprs_text(ev.take(i as int)),
        decreases es@.len() - i,
    {
        proof {
            assert(decreases_to!(*es => es[i as int]));
            assert(ev.take(i + 1).drop_last() =~= ev.take(i as int));
            assert(ev.take(i + 1).last() == ev[i as int]);
        }
        let item = expression_string(&es[i]);
        if i == 0 {
            text = item;
        } else {
            text.append(", ");
            text.append(item.as_str());
        }
        i = i + 1;
    }
    proof {
        assert(ev.take(i as int) =~= ev);
    }
    text
}

/// The names separated by `, `.
pub fn names_string(names: &Vec<String>) -> (text: String)
    ensures
        text@ == names_text(texts(names@)),
{
    let ghost nv = texts(names@);
    let mut text = String::new();
    let mut i: usize = 0;
    while i < names.len()
        invariant
            nv == texts(names@),
            i <= names@.len(),
            text@ == names_text(nv.take(i as int)),
        decreases names@.len() - i,
    {
        proof {
            assert(nv.take(i + 1).drop_last() =~= nv.take(i as int));
            assert(nv.take(i + 1).last() == nv[i as int]);
        }
        if i == 0 {
            text = names[i].as_str().to_owned();
        } else {
            text.append(", ");
            text.append(names[i].as_str());
        }
        i = i + 1;
    }
    proof {
        assert(nv.take(i as int) =~= nv);
    }
    text
}

/// The statements rendered one after another.
pub fn lines_string(statements: &Vec<LoweredStatement>) -> (text: String)
    ensures
        text@ == lines_text(stmt_list_view(statements)),
    decreases statements, 0nat,
{
    let ghost sv = stmt_list_view(statements);
    let mut text = String::new();
    let mut i: usize = 0;
    while i < statements.len()
        invariant
            sv == stmt_list_view(statements),
            sv.len() == statements@.len(),
            i <= statements@.len(),
            text@ == lines_text(sv.take(i as int)),
        decreases statements@.len() - i,
    {
        proof {
            assert(decreases_to!(*statements => statements[i as int]));
            assert(sv.take(i + 1).drop_last() =~= sv.take(i as int));
            assert(sv.take(i + 1).last() == sv[i as int]);
        }
        let line = statement_string(&statements[i]);
        text.append(line.as_str());
        i = i + 1;
    }
    proof {
        assert(sv.take(i as int) =~= sv);
    }
    text
}

fn block_string(block: &LoweredBlock) -> (text: String)
    ensures
        text@ == lines_text(block@),
    decreases block, 0nat,
{
    lines_string(&block.statements)
}

fn definition_string(d: &Definition) -> (text: String)
    ensures
        text@ == definition_text(d@),
    decreases d, 0nat,
{
    let mut text = names_string(&d.names);
    let value = expression_string(&d.value);
    text.append(" := ");
    text.append(value.as_str());
    text
}

fn transfer_string(t: &LoopTransfer) -> (text: String)
    ensures
        text@ == transfer_text(t.view_transfer()),
{
    match t {
        LoopTransfer::Labeled(label) => {
            let mut text = " ".to_owned();
            text.append(label.as_str());
            text
        },
        _ => String::new(),
    }
}

/// An `if` statement with its setup and its `else` chain.
pub fn if_string(plan: &IfPlan) -> (text: String)
    ensures
        text@ == if_text(plan@),
    decreases plan, 0nat,
{
    let mut text = lines_string(&plan.condition_setup);
    let init = match &plan.initializer {
        Some(d) => {
            let mut t = definition_string(d);
            t.append("; ");
            t
        },
        None => String::new(),
    };
    assert(init@ == initializer_text(plan@.initializer));
    let condition = header_string(&plan.condition);
    let then_text = block_string(&plan.then_body);
    proof {
        assert(decreases_to!(*plan => plan.else_arm));
    }
    let else_part = else_string(&plan.else_arm);
    text.append("if ");
    text.append(init.as_str());
    text.append(condition.as_str());
    text.append(" {\n");
    text.append(then_text.as_str());
    text.append("}");
    text.append(else_part.as_str());
    text
}

fn else_string(arm: &ElseArm) -> (text: String)
    ensures
        text@ == else_text(arm.view_else()),
    decreases arm, 0nat,
{
    match arm {
        ElseArm::NoElse => "\n".to_owned(),
        ElseArm::ElseIf(inner) => {
            let inner_text = if_string(inner);
            if inner.condition_setup.len() == 0 {
                let mut t = " else ".to_owned();
                t.append(inner_text.as_str());
                t
            } else {
                let mut t = " else {\n".to_owned();
                t.append(inner_text.as_str());
                t.append("}\n");
                t
            }
        },
        ElseArm::Else { body, inline } => {
            let body_text = block_string(body);
            if *inline {
                let mut t = "\n".to_owned();
                t.append(body_text.as_str());
                t
            } else {
                let mut t = " else {\n".to_owned();
                t.append(body_text.as_str());
                t.append("}\n");
                t
            }
        },
    }
}

fn loop_header_string(plan: &LoopPlan) -> (text: String)
    ensures
        text@ == loop_header_text(plan.view_loop().header),
    decreases plan, 0nat,
{
    match &plan.header {
        LoopHeader::Infinite => String::new(),
        LoopHeader::While(c) => {
            let mut text = " ".to_owned();
            let condition = header_string(c);
            text.append(condition.as_str());
            text
        },
        LoopHeader::Range { key, value, iterable } => {
            let iterated = header_string(iterable);
            match (key, value) {
                (None, None) => {
                    let mut text = " range ".to_owned();
                    text.append(iterated.as_str());
                    text
                },
                (Some(k), None) => {
                    let mut text = " ".to_owned();
                    text.append(k.as_str());
                    text.append(" := range ");
                    text.append(iterated.as_str());
                    text
                },
                (k, Some(v)) => {
                    let key_text = match k {
                        Some(k) => k.as_str().to_owned(),
                        None => "_".to_owned(),
                    };
                    let mut text = " ".to_owned();
                    text.append(key_text.as_str());
                    text.append(", ");
                    text.append(v.as_str());
                    text.append(" := range ");
                    text.append(iterated.as_str());
                    text
                },
            }
        },
        LoopHeader::Counted { variable, start, condition } => {
            let start_text = header_string(start);
            let condition_text = match condition {
                Some(c) => header_string(c),
                None => String::new(),
            };
            proof {
                assert(condition_text@ == opt_expr_text(plan.view_loop().header->Counted_condition));
            }
            let mut text = " ".to_owned();
            text.append(variable.as_str());
            text.append(" := ");
            text.append(start_text.as_str());
            text.append("; ");
            text.append(condition_text.as_str());
            text.append("; ");
            text.append(variable.as_str());
            text.append("++");
            text
        },
    }
}

fn label_string(plan: &LoopPlan) -> (text: String)
    ensures
        text@ == label_text(plan.view_loop().kind),
{
    match &plan.kind {
        LoopKind::Source { label: Some(l) } | LoopKind::Generated { label: Some(l) } => {
            let mut text = l.as_str().to_owned();
            text.append(":\n");
            text
        },
        _ => String::new(),
    }
}

fn loop_string(plan: &LoopPlan) -> (text: String)
    ensures
        text@ == loop_text(plan.view_loop()),
    decreases plan, 1nat,
{
    let mut text = lines_string(&plan.prologue);
    let label = label_string(plan);
    let header = loop_header_string(plan);
    let body = block_string(&plan.body);
    text.append(label.as_str());
    text.append("for");
    text.append(header.as_str());
    text.append(" {\n");
    text.append(body.as_str());
    text.append("}\n");
    text
}

fn arm_string(arm: &SelectArmPlan) -> (text: String)
    ensures
        text@ == arm_text(arm.view_arm()),
    decreases arm, 0nat,
{
    match arm {
        SelectArmPlan::Receive { receive_vars, channel, body } => {
            let vars = match receive_vars {
                Some(v) => {
                    let mut t = v.as_str().to_owned();
                    t.append(" := ");
                    t
                },
                None => String::new(),
            };
            let channel_text = expression_string(channel);
            let body_text = block_string(body);
            let mut text = "case ".to_owned();
            text.append(vars.as_str());
            text.append("<-");
            text.append(channel_text.as_str());
            text.append(":\n");
            text.append(body_text.as_str());
            text
        },
        SelectArmPlan::Send { channel, value, body } => {
            let channel_text = expression_string(channel);
            let value_text = expression_string(value);
            let body_text = block_string(body);
            let mut text = "case ".to_owned();
            text.append(channel_text.as_str());
            text.append(" <- ");
            text.append(value_text.as_str());
            text.append(":\n");
            text.append(body_text.as_str());
            text
        },
        SelectArmPlan::Default { body } => {
            let body_text = block_string(body);
            let mut text = "default:\n".to_owned();
            text.append(body_text.as_str());
            text
        },
    }
}

fn arms_string(arms: &Vec<SelectArmPlan>) -> (text: String)
    ensures
        text@ == arms_text(arm_list_view(arms)),
    decreases arms, 0nat,
{
    let ghost av = arm_list_view(arms);
    let mut text = String::new();
    let mut i: usize = 0;
    while i < arms.len()
        invariant
            av == arm_list_view(arms),
            av.len() == arms@.len(),
            i <= arms@.len(),
            text@ == arms_text(av.take(i as int)),
        decreases arms@.len() - i,
    {
        proof {
            assert(decreases_to!(*arms => arms[i as int]));
            assert(av.take(i + 1).drop_last() =~= av.take(i as int));
            assert(av.take(i + 1).last() == av[i as int]);
            assert(av[i as int] == arms@[i as int].view_arm());
        }
        let arm = arm_string(&arms[i]);
        text.append(arm.as_str());
        i = i + 1;
    }
    proof {
        assert(av.take(i as int) =~= av);
    }
    text
}

fn select_string(plan: &SelectStatementPlan) -> (text: String)
    ensures
        text@ == select_text(plan.view_select()),
    decreases plan, 0nat,
{
    let mut text = lines_string(&plan.setup);
    let opening = if plan.retry_loop {
        "for {\n".to_owned()
    } else {
        String::new()
    };
    let closing = if plan.retry_loop {
        "break\n}\n".to_owned()
    } else {
        String::new()
    };
    let arms = arms_string(&plan.arms);
    let postlude = lines_string(&plan.postlude);
    text.append(opening.as_str());
    text.append("select {\n");
    text.append(arms.as_str());
    text.append("}\n");
    text.append(closing.as_str());
    text.append(postlude.as_str());
    text
}

fn case_string(case: &SwitchCasePlan) -> (text: String)
    ensures
        text@ == case_text(case.view_case()),
    decreases case, 0nat,
{
    let labels = expressions_string(&case.labels);
    let body = block_string(&case.body);
    let mut text = "case ".to_owned();
    text.append(labels.as_str());
    text.append(":\n");
    text.append(body.as_str());
    text
}

fn cases_string(cases: &Vec<SwitchCasePlan>) -> (text: String)
    ensures
        text@ == cases_text(case_list_view(cases)),
    decreases cases, 0nat,
{
    let ghost cv = case_list_view(cases);
    let mut text = String::new();
    let mut i: usize = 0;
    while i < cases.len()
        invariant
            cv == case_list_view(cases),
            cv.len() == cases@.len(),
            i <= cases@.len(),
            text@ == cases_text(cv.take(i as int)),
        decreases cases@.len() - i,
    {
        proof {
            assert(decreases_to!(*cases => cases[i as int]));
            assert(cv.take(i + 1).drop_last() =~= cv.take(i as int));
            assert(cv.take(i + 1).last() == cv[i as int]);
            assert(cv[i as int] == cases@[i as int].view_case());
        }
        let case = case_string(&cases[i]);
        text.append(case.as_str());
        i = i + 1;
    }
    proof {
        assert(cv.take(i as int) =~= cv);
    }
    text
}

fn switch_string(plan: &SwitchStatementPlan) -> (text: String)
    ensures
        text@ == switch_text(plan.view_switch()),
    decreases plan, 0nat,
{
    let subject = match &plan.kind {
        SwitchKind::Conditional => String::new(),
        SwitchKind::Value { subject } => {
            let mut t = " ".to_owned();
            let s = header_string(subject);
            t.append(s.as_str());
            t
        },
        SwitchKind::Type { subject, binding } => {
            let bound = match binding {
                Some(b) => {
                    let mut t = b.as_str().to_owned();
                    t.append(" := ");
                    t
                },
                None => String::new(),
            };
            let s = header_string(subject);
            let mut t = " ".to_owned();
            t.append(bound.as_str());
            t.append(s.as_str());
            t.append(".(type)");
            t
        },
    };
    assert(subject@ == switch_subject_text(plan.view_switch().kind));
    let cases = cases_string(&plan.cases);
    let default = match &plan.default {
        Some(body) => {
            let b = block_string(body);
            let mut t = "default:\n".to_owned();
            t.append(b.as_str());
            t
        },
        None => String::new(),
    };
    assert(default@ == default_text(plan.view_switch().default));
    let postlude = lines_string(&plan.postlude);
    let mut text = "switch".to_owned();
    text.append(subject.as_str());
    text.append(" {\n");
    text.append(cases.as_str());
    text.append(default.as_str());
    text.append("}\n");
    text.append(postlude.as_str());
    text
}

fn assign_string(form: &AssignForm) -> (text: String)
    ensures
        text@ == assign_text(form.view_assign()),
    decreases form, 1nat,
{
    match form {
        AssignForm::Simple { target_capture, target, value } => {
            let mut text = lines_string(target_capture);
            let setup = lines_string(&value.setup);
            let target_text = expression_string(target);
            let value_text = expression_string(&value.expression);
            text.append(setup.as_str());
            text.append(target_text.as_str());
            text.append(" = ");
            text.append(value_text.as_str());
            text.append("\n");
            text
        },
        AssignForm::Compound { target_capture, .. } => {
            let mut text = lines_string(target_capture);
            let rest = compound_string(form);
            text.append(rest.as_str());
            text
        },
    }
}

fn compound_string(form: &AssignForm) -> (text: String)
    ensures
        text@ == compound_text(form.view_assign()),
    decreases form, 0nat,
{
    let (target, kind) = match form {
        AssignForm::Compound { target, kind, .. } => (target, kind),
        AssignForm::Simple { .. } => {
            return String::new();
        },
    };
    let target_text = expression_string(target);
    match kind {
        CompoundKind::Increment => {
            let mut t = target_text;
            t.append("++\n");
            t
        },
        CompoundKind::Decrement => {
            let mut t = target_text;
            t.append("--\n");
            t
        },
        CompoundKind::OpAssign { op_text, rhs, pinned_left } => {
            let mut t = lines_string(&rhs.setup);
            let rhs_text = expression_string(&rhs.expression);
            let tail = match pinned_left {
                Some(left) => {
                    let left_text = expression_string(left);
                    let mut u = target_text;
                    u.append(" = ");
                    u.append(left_text.as_str());
                    u.append(" ");
                    u.append(op_text.as_str());
                    u.append(" ");
                    u.append(rhs_text.as_str());
                    u.append("\n");
                    u
                },
                None => {
                    let mut u = target_text;
                    u.append(" ");
                    u.append(op_text.as_str());
                    u.append("= ");
                    u.append(rhs_text.as_str());
                    u.append("\n");
                    u
                },
            };
            t.append(tail.as_str());
            t
        },
    }
}

/// `{ .. }`, a bare body, or the `for { .. }` of a `while let`.
fn body_statement_string(statement: &LoweredStatement) -> (text: String)
    ensures
        text@ == body_text(statement@),
    decreases statement, 0nat,
{
    match statement {
        LoweredStatement::Block(body) => {
            let b = block_string(body);
            let mut text = "{\n".to_owned();
            text.append(b.as_str());
            text.append("}\n");
            text
        },
        LoweredStatement::Body(body) => block_string(body),
        LoweredStatement::WhileLet(body) => {
            let b = block_string(body);
            let mut text = "for {\n".to_owned();
            text.append(b.as_str());
            text.append("}\n");
            text
        },
        _ => String::new(),
    }
}

/// `break` or `continue` with its label.
fn jump_string(statement: &LoweredStatement) -> (text: String)
    ensures
        text@ == jump_text(statement@),
{
    match statement {
        LoweredStatement::Break(t) => {
            let suffix = transfer_string(t);
            let mut text = "break".to_owned();
            text.append(suffix.as_str());
            text.append("\n");
            text
        },
        LoweredStatement::Continue(t) => {
            let suffix = transfer_string(t);
            let mut text = "continue".to_owned();
            text.append(suffix.as_str());
            text.append("\n");
            text
        },
        _ => String::new(),
    }
}

fn const_string(statement: &LoweredStatement) -> (text: String)
    ensures
        text@ == const_text(statement@),
    decreases statement, 0nat,
{
    match statement {
        LoweredStatement::Const(plan) => {
            let mut text = if plan.is_const {
                "const ".to_owned()
            } else {
                "var ".to_owned()
            };
            let typed = if plan.ty_str.as_str().unicode_len() > 0 {
                let mut t = " ".to_owned();
                t.append(plan.ty_str.as_str());
                t
            } else {
                String::new()
            };
            let value_text = expression_string(&plan.value);
            text.append(plan.name.as_str());
            text.append(typed.as_str());
            text.append(" = ");
            text.append(value_text.as_str());
            text.append("\n");
            text
        },
        _ => String::new(),
    }
}

fn return_string(statement: &LoweredStatement) -> (text: String)
    ensures
        text@ == return_text(statement@),
    decreases statement, 0nat,
{
    match statement {
        LoweredStatement::Return(values) => {
            let listed = if values.len() > 0 {
                let mut t = " ".to_owned();
                let e = expressions_string(values);
                t.append(e.as_str());
                t
            } else {
                String::new()
            };
            let mut text = "return".to_owned();
            text.append(listed.as_str());
            text.append("\n");
            text
        },
        _ => String::new(),
    }
}

/// The one-line statements that write expressions.
fn simple_statement_string(statement: &LoweredStatement) -> (text: String)
    ensures
        text@ == simple_text(statement@),
    decreases statement, 0nat,
{
    match statement {
        LoweredStatement::Async { keyword, call } => {
            let call_text = expression_string(call);
            let mut text = keyword.as_str().to_owned();
            text.append(" ");
            text.append(call_text.as_str());
            text.append("\n");
            text
        },
        LoweredStatement::Define(d) => {
            let mut text = definition_string(d);
            text.append("\n");
            text
        },
        LoweredStatement::AssignMany { targets, value } => {
            let mut text = expressions_string(targets);
            let value_text = expression_string(value);
            text.append(" = ");
            text.append(value_text.as_str());
            text.append("\n");
            text
        },
        LoweredStatement::VarDecl { name, go_type, value } => {
            let assigned = match value {
                Some(v) => {
                    let mut t = " = ".to_owned();
                    let e = expression_string(v);
                    t.append(e.as_str());
                    t
                },
                None => String::new(),
            };
            let mut text = "var ".to_owned();
            text.append(name.as_str());
            text.append(" ");
            text.append(go_type.as_str());
            text.append(assigned.as_str());
            text.append("\n");
            text
        },
        LoweredStatement::Discard(e) => {
            let e_text = expression_string(e);
            let mut text = "_ = ".to_owned();
            text.append(e_text.as_str());
            text.append("\n");
            text
        },
        LoweredStatement::ExpressionStatement { expression, .. } => {
            let mut text = expression_string(expression);
            if text.as_str().unicode_len() > 0 {
                text.append("\n");
                text
            } else {
                String::new()
            }
        },
        _ => String::new(),
    }
}

fn directed_string(statement: &LoweredStatement) -> (text: String)
    ensures
        text@ == directed_text(statement@),
    decreases statement, 0nat,
{
    match statement {
        LoweredStatement::Directed { directive, inner } => {
            let inner_text = statement_string(inner);
            if directive.as_str().unicode_len() > 0 {
                let mut text = directive.as_str().to_owned();
                text.append("\n");
                text.append(inner_text.as_str());
                text
            } else {
                inner_text
            }
        },
        _ => String::new(),
    }
}

/// The Go lines of a statement, each ending in a newline.
pub fn statement_string(statement: &LoweredStatement) -> (text: String)
    ensures
        text@ == statement@.rendered(),
    decreases statement, 1nat,
{
    match statement {
        LoweredStatement::If(plan) => if_string(plan),
        LoweredStatement::Loop(plan) => loop_string(plan),
        LoweredStatement::Block(_) | LoweredStatement::Body(_) | LoweredStatement::WhileLet(_) => {
            body_statement_string(statement)
        },
        LoweredStatement::Break(_) | LoweredStatement::Continue(_) => jump_string(statement),
        LoweredStatement::Const(_) => const_string(statement),
        LoweredStatement::Return(_) => return_string(statement),
        LoweredStatement::Assign(form) => assign_string(form),
        LoweredStatement::Select(plan) => select_string(plan),
        LoweredStatement::Switch(plan) => switch_string(plan),
        LoweredStatement::Async { .. }
        | LoweredStatement::Define(_)
        | LoweredStatement::AssignMany { .. }
        | LoweredStatement::VarDecl { .. }
        | LoweredStatement::Discard(_)
        | LoweredStatement::ExpressionStatement { .. } => simple_statement_string(statement),
        LoweredStatement::Directed { .. } => directed_string(statement),
        LoweredStatement::UnreachablePanic => "panic(\"unreachable\")\n".to_owned(),
    }
}

/// How many characters of `text` remain once its trailing newlines are cut.
fn trimmed_length(text: &str) -> (n: usize)
    ensures
        n <= text@.len(),
        text@.take(n as int) == trim_newlines(text@),
{
    let mut n = text.unicode_len();
    proof {
        assert(text@.take(n as int) =~= text@);
    }
    while n > 0 && text.get_char(n - 1) == '\n'
        invariant
            n <= text@.len(),
            trim_newlines(text@.take(n as int)) == trim_newlines(text@),
        decreases n,
    {
        proof {
            assert(text@.take(n as int).drop_last() =~= text@.take(n - 1));
        }
        n = n - 1;
    }
    n
}

/// Whether a newline stands among the first `n` characters of `text`.
fn has_newline_before(text: &str, n: usize) -> (r: bool)
    requires
        n <= text@.len(),
    ensures
        r == text@.take(n as int).contains('\n'),
{
    let mut i: usize = 0;
    while i < n
        invariant
            n <= text@.len(),
            i <= n,
            forall|j: int| 0 <= j < i ==> text@[j] != '\n',
        decreases n - i,
    {
        if text.get_char(i) == '\n' {
            proof {
                assert(text@.take(n as int)[i as int] == '\n');
            }
            return true;
        }
        i = i + 1;
    }
    proof {
        assert forall|j: int| 0 <= j < text@.take(n as int).len() implies text@.take(
            n as int,
        )[j] != '\n' by {}
    }
    false
}

/// What follows `func(..) result {`: the statements on one line for an inline
/// literal whose statements each fit on a line, otherwise one after another on
/// their own lines, then the closing brace.
pub fn function_body_string(body: &LoweredBlock, layout: FunctionLiteralLayout) -> (text: String)
    ensures
        text@ == function_body_text(body@, layout),
    decreases body, 0nat,
{
    let ghost bv = body@;
    let mut lines: Vec<String> = Vec::new();
    let mut i: usize = 0;
    while i < body.statements.len()
        invariant
            bv == body@,
            bv.len() == body.statements@.len(),
            i <= body.statements@.len(),
            lines@.len() == i,
            forall|j: int| 0 <= j < i ==> #[trigger] lines@[j]@ == bv[j].rendered(),
        decreases body.statements@.len() - i,
    {
        proof {
            assert(decreases_to!(*body => body.statements));
            assert(decreases_to!(body.statements => body.statements[i as int]));
        }
        let line = statement_string(&body.statements[i]);
        lines.push(line);
        i = i + 1;
    }
    let mut single = true;
    let mut k: usize = 0;
    while k < lines.len()
        invariant
            lines@.len() == bv.len(),
            forall|j: int| 0 <= j < lines@.len() ==> #[trigger] lines@[j]@ == bv[j].rendered(),
            k <= lines@.len(),
            single == renders_single_lines(bv.take(k as int)),
        decreases lines@.len() - k,
    {
        proof {
            assert(bv.take(k + 1).drop_last() =~= bv.take(k as int));
            assert(bv.take(k + 1).last() == bv[k as int]);
        }
        let n = trimmed_length(lines[k].as_str());
        if has_newline_before(lines[k].as_str(), n) {
            single = false;
        }
        k = k + 1;
    }
    proof {
        assert(bv.take(k as int) =~= bv);
    }
    if layout == FunctionLiteralLayout::Inline && single {
        let mut joined = String::new();
        let mut m: usize = 0;
        while m < lines.len()
            invariant
                lines@.len() == bv.len(),
                forall|j: int| 0 <= j < lines@.len() ==> #[trigger] lines@[j]@ == bv[j].rendered(),
                m <= lines@.len(),
                joined@ == joined_statements(bv.take(m as int)),
            decreases lines@.len() - m,
        {
            proof {
                assert(bv.take(m + 1).drop_last() =~= bv.take(m as int));
                assert(bv.take(m + 1).last() == bv[m as int]);
            }
            let n = trimmed_length(lines[m].as_str());
            let part = lines[m].as_str().substring_char(0, n);
            if m == 0 {
                joined = part.to_owned();
            } else {
                joined.append("; ");
                joined.append(part);
            }
            m = m + 1;
        }
        proof {
            assert(bv.take(m as int) =~= bv);
        }
        if joined.as_str().unicode_len() > 0 {
            let mut text = " ".to_owned();
            text.append(joined.as_str());
            text.append(" }");
            text
        } else {
            "}".to_owned()
        }
    } else {
        let mut listed = String::new();
        let mut m: usize = 0;
        while m < lines.len()
            invariant
                lines@.len() == bv.len(),
                forall|j: int| 0 <= j < lines@.len() ==> #[trigger] lines@[j]@ == bv[j].rendered(),
                m <= lines@.len(),
                listed@ == lines_text(bv.take(m as int)),
            decreases lines@.len() - m,
        {
            proof {
                assert(bv.take(m + 1).drop_last() =~= bv.take(m as int));
                assert(bv.take(m + 1).last() == bv[m as int]);
            }
            listed.append(lines[m].as_str());
            m = m + 1;
        }
        proof {
            assert(bv.take(m as int) =~= bv);
        }
        let mut text = "\n".to_owned();
        text.append(listed.as_str());
        text.append("}");
        text
    }
}

/// Assignments render as Go writes them: `t++` and `t--` for the one-step
/// compound forms, `t op= r` for the others, `t = v` for a plain one; a
/// plain name target is written as the name itself.
pub proof fn law_assignments_render_as_go(
    target: crate::model::ExprView,
    operator: Seq<char>,
    right: crate::model::ExprView,
    evaluation: crate::values::EvaluationFacts,
    name: Seq<char>,
)
    ensures
        crate::model::StmtView::Assign(
            crate::model::AssignView::Compound {
                target_capture: Seq::empty(),
                target,
                kind: crate::model::CompoundView::Increment,
            },
        ).rendered() == crate::model::expr_text(target) + seq!['+', '+', '\n'],
        crate::model::StmtView::Assign(
            crate::model::AssignView::Compound {
                target_capture: Seq::empty(),
                target,
                kind: crate::model::CompoundView::Decrement,
            },
        ).rendered() == crate::model::expr_text(target) + seq!['-', '-', '\n'],
        crate::model::StmtView::Assign(
            crate::model::AssignView::Compound {
                target_capture: Seq::empty(),
                target,
                kind: crate::model::CompoundView::OpAssign {
                    op_text: operator,
                    rhs: crate::model::ValueView { setup: Seq::empty(), expression: right, evaluation },
                    pinned_left: None,
                },
            },
        ).rendered() == crate::model::expr_text(target) + seq![' '] + operator + seq!['=', ' '] + crate::model::expr_text(right)
            + seq!['\n'],
        crate::model::StmtView::Assign(
            crate::model::AssignView::Simple {
                target_capture: Seq::empty(),
                target,
                value: crate::model::ValueView { setup: Seq::empty(), expression: right, evaluation },
            },
        ).rendered() == crate::model::expr_text(target) + seq![' ', '=', ' '] + crate::model::expr_text(right) + seq!['\n'],
        crate::model::expr_text(crate::model::ExprView { node: crate::model::NodeView::Identifier(name), constant: target.constant }) == name,
{
    reveal_strlit("++\n");
    reveal_strlit("--\n");
    reveal_strlit(" ");
    reveal_strlit("= ");
    reveal_strlit(" = ");
    reveal_strlit("\n");
    assert(crate::model::lines_text(Seq::empty()) == Seq::<char>::empty());
    assert("++\n"@ =~= seq!['+', '+', '\n']);
    assert("--\n"@ =~= seq!['-', '-', '\n']);
    assert(" "@ =~= seq![' ']);
    assert("= "@ =~= seq!['=', ' ']);
    assert(" = "@ =~= seq![' ', '=', ' ']);
    assert("\n"@ =~= seq!['\n']);
    let inc = crate::model::AssignView::Compound {
        target_capture: Seq::empty(),
        target,
        kind: crate::model::CompoundView::Increment,
    };
    let dec = crate::model::AssignView::Compound {
        target_capture: Seq::empty(),
        target,
        kind: crate::model::CompoundView::Decrement,
    };
    assert(crate::model::compound_text(inc) == crate::model::expr_text(target) + "++\n"@);
    assert(crate::model::compound_text(dec) == crate::model::expr_text(target) + "--\n"@);
    assert(crate::model::assign_text(inc) == crate::model::lines_text(Seq::empty()) + crate::model::compound_text(inc));
    assert(crate::model::assign_text(dec) == crate::model::lines_text(Seq::empty()) + crate::model::compound_text(dec));
    assert(crate::model::StmtView::Assign(inc).rendered() == crate::model::assign_text(inc));
    assert(crate::model::StmtView::Assign(dec).rendered() == crate::model::assign_text(dec));
    assert(Seq::<char>::empty() + (crate::model::expr_text(target) + "++\n"@) =~= crate::model::expr_text(target) + seq!['+', '+', '\n']);
    let opa = crate::model::AssignView::Compound {
        target_capture: Seq::empty(),
        target,
        kind: crate::model::CompoundView::OpAssign {
            op_text: operator,
            rhs: crate::model::ValueView { setup: Seq::empty(), expression: right, evaluation },
            pinned_left: None,
        },
    };
    let written = crate::model::expr_text(target) + " "@ + operator + "= "@ + crate::model::expr_text(right) + "\n"@;
    assert(crate::model::compound_text(opa) == crate::model::lines_text(Seq::empty()) + written);
    assert(crate::model::assign_text(opa) == crate::model::lines_text(Seq::empty()) + crate::model::compound_text(opa));
    assert(crate::model::StmtView::Assign(opa).rendered() == crate::model::assign_text(opa));
    assert(Seq::<char>::empty() + (Seq::<char>::empty() + written) =~= crate::model::expr_text(target) + seq![' '] + operator
        + seq!['=', ' '] + crate::model::expr_text(right) + seq!['\n']);
    assert(Seq::<char>::empty() + (crate::model::expr_text(target) + "--\n"@) =~= crate::model::expr_text(target) + seq!['-', '-', '\n']);
}

/// Simple statements render as Go writes them: `return` with its values
/// separated by `, `, `break` and `continue` with their label, `_ = e`,
/// `name := e`, and the unreachable panic.
pub proof fn law_simple_statements_render_as_go(
    e: crate::model::ExprView,
    f: crate::model::ExprView,
    label: Seq<char>,
    name: Seq<char>,
)
    ensures
        crate::model::StmtView::Return(Seq::empty()).rendered() == seq!['r', 'e', 't', 'u', 'r', 'n', '\n'],
        crate::model::StmtView::Return(seq![e]).rendered() == seq!['r', 'e', 't', 'u', 'r', 'n', ' '] + crate::model::expr_text(e) + seq!['\n'],
        crate::model::StmtView::Return(seq![e, f]).rendered() == seq!['r', 'e', 't', 'u', 'r', 'n', ' '] + crate::model::expr_text(e) + seq![',', ' '] + crate::model::expr_text(f) + seq!['\n'],
        crate::model::StmtView::Break(crate::model::TransferView::Unlabeled).rendered() == seq!['b', 'r', 'e', 'a', 'k', '\n'],
        crate::model::StmtView::Break(crate::model::TransferView::Labeled(label)).rendered() == seq!['b', 'r', 'e', 'a', 'k', ' '] + label + seq!['\n'],
        crate::model::StmtView::Continue(crate::model::TransferView::Unlabeled).rendered() == seq!['c', 'o', 'n', 't', 'i', 'n', 'u', 'e', '\n'],
        crate::model::StmtView::Continue(crate::model::TransferView::Labeled(label)).rendered() == seq!['c', 'o', 'n', 't', 'i', 'n', 'u', 'e', ' '] + label + seq!['\n'],
        crate::model::StmtView::Discard(e).rendered() == seq!['_', ' ', '=', ' '] + crate::model::expr_text(e) + seq!['\n'],
        crate::model::StmtView::Define(crate::model::DefView { names: seq![name], value: e }).rendered() == name + seq![' ', ':', '=', ' '] + crate::model::expr_text(e) + seq!['\n'],
        crate::model::StmtView::UnreachablePanic.rendered() == seq!['p', 'a', 'n', 'i', 'c', '(', '"', 'u', 'n', 'r', 'e', 'a', 'c', 'h', 'a', 'b', 'l', 'e', '"', ')', '\n'],
{
    reveal_strlit("return");
    reveal_strlit("return ");
    reveal_strlit(" ");
    reveal_strlit(", ");
    reveal_strlit("\n");
    reveal_strlit("break");
    reveal_strlit("continue");
    reveal_strlit(" ");
    reveal_strlit("_ = ");
    reveal_strlit(" := ");
    reveal_strlit("panic(\"unreachable\")\n");
    assert(crate::model::exprs_text(seq![e]) == crate::model::expr_text(e));
    assert(seq![e, f].drop_last() =~= seq![e]);
    assert(crate::model::exprs_text(seq![e, f]) == crate::model::expr_text(e) + ", "@ + crate::model::expr_text(f));
    assert(crate::model::names_text(seq![name]) == name);
    let d = crate::model::DefView { names: seq![name], value: e };
    assert(crate::model::definition_text(d) == name + " := "@ + crate::model::expr_text(e));
    assert(crate::model::simple_text(crate::model::StmtView::Define(d)) == crate::model::definition_text(d) + "\n"@);
    assert(crate::model::StmtView::Define(d).rendered() == crate::model::simple_text(crate::model::StmtView::Define(d)));
    assert("return"@ =~= seq!['r', 'e', 't', 'u', 'r', 'n']);
    assert(" "@ =~= seq![' ']);
    assert(", "@ =~= seq![',', ' ']);
    assert("\n"@ =~= seq!['\n']);
    assert("break"@ =~= seq!['b', 'r', 'e', 'a', 'k']);
    assert("continue"@ =~= seq!['c', 'o', 'n', 't', 'i', 'n', 'u', 'e']);
    assert("_ = "@ =~= seq!['_', ' ', '=', ' ']);
    assert(" := "@ =~= seq![' ', ':', '=', ' ']);
    assert("panic(\"unreachable\")\n"@ =~= seq!['p', 'a', 'n', 'i', 'c', '(', '"', 'u', 'n', 'r', 'e', 'a', 'c', 'h', 'a', 'b', 'l', 'e', '"', ')', '\n']);
}

/// Control statements render as Go writes them: `if c {` ... `}` with an
/// `else {` ... `}` block, or with an inline `else` as the lines that
/// follow the closing brace; a block in braces; `for {` ... `}` for an
/// endless loop and `for c {` ... `}` for a conditional one.
pub proof fn law_control_statements_render_as_go(
    condition: crate::model::ExprView,
    body: Seq<crate::model::StmtView>,
    other: Seq<crate::model::StmtView>,
)
    ensures
        crate::model::StmtView::If(crate::model::IfView { condition_setup: Seq::empty(), initializer: None, condition, then_body: body, else_arm: crate::model::ElseView::NoElse }).rendered() == seq!['i', 'f', ' '] + crate::model::header_text(condition) + seq![' ', '{', '\n'] + crate::model::lines_text(body) + seq!['}', '\n'],
        crate::model::StmtView::If(crate::model::IfView { condition_setup: Seq::empty(), initializer: None, condition, then_body: body, else_arm: crate::model::ElseView::Else { body: other, inline: false } }).rendered() == seq!['i', 'f', ' '] + crate::model::header_text(condition) + seq![' ', '{', '\n'] + crate::model::lines_text(body) + seq!['}', ' ', 'e', 'l', 's', 'e', ' ', '{', '\n'] + crate::model::lines_text(other) + seq!['}', '\n'],
        crate::model::StmtView::If(crate::model::IfView { condition_setup: Seq::empty(), initializer: None, condition, then_body: body, else_arm: crate::model::ElseView::Else { body: other, inline: true } }).rendered() == seq!['i', 'f', ' '] + crate::model::header_text(condition) + seq![' ', '{', '\n'] + crate::model::lines_text(body) + seq!['}', '\n'] + crate::model::lines_text(other),
        crate::model::StmtView::Block(body).rendered() == seq!['{', '\n'] + crate::model::lines_text(body) + seq!['}', '\n'],
        crate::model::StmtView::WhileLet(body).rendered() == seq!['f', 'o', 'r', ' ', '{', '\n'] + crate::model::lines_text(body) + seq!['}', '\n'],
        crate::model::StmtView::Loop(crate::model::LoopView { prologue: Seq::empty(), kind: crate::model::LoopKindView::Generated { label: None }, header: crate::model::HeaderView::Infinite, body }).rendered() == seq!['f', 'o', 'r', ' ', '{', '\n'] + crate::model::lines_text(body) + seq!['}', '\n'],
        crate::model::StmtView::Loop(crate::model::LoopView { prologue: Seq::empty(), kind: crate::model::LoopKindView::Generated { label: None }, header: crate::model::HeaderView::While(condition), body }).rendered() == seq!['f', 'o', 'r', ' '] + crate::model::header_text(condition) + seq![' ', '{', '\n'] + crate::model::lines_text(body) + seq!['}', '\n'],
{
    reveal_strlit("if ");
    reveal_strlit(" {\n");
    reveal_strlit("}");
    reveal_strlit("\n");
    reveal_strlit(" else {\n");
    reveal_strlit("}\n");
    reveal_strlit("{\n");
    reveal_strlit("for {\n");
    reveal_strlit("for");
    reveal_strlit(" ");
    assert("if "@ =~= seq!['i', 'f', ' ']);
    assert(" {\n"@ =~= seq![' ', '{', '\n']);
    assert("}"@ =~= seq!['}']);
    assert("\n"@ =~= seq!['\n']);
    assert(" else {\n"@ =~= seq![' ', 'e', 'l', 's', 'e', ' ', '{', '\n']);
    assert("}\n"@ =~= seq!['}', '\n']);
    assert("{\n"@ =~= seq!['{', '\n']);
    assert("for {\n"@ =~= seq!['f', 'o', 'r', ' ', '{', '\n']);
    assert("for"@ =~= seq!['f', 'o', 'r']);
    assert(" "@ =~= seq![' ']);
    assert(crate::model::lines_text(Seq::empty()) == Seq::<char>::empty());
    let plain = crate::model::IfView {
        condition_setup: Seq::empty(),
        initializer: None,
        condition,
        then_body: body,
        else_arm: crate::model::ElseView::NoElse,
    };
    let blocked = crate::model::IfView { else_arm: crate::model::ElseView::Else { body: other, inline: false }, ..plain };
    let head = crate::model::lines_text(Seq::empty()) + "if "@ + crate::model::initializer_text(None) + crate::model::header_text(condition)
        + " {\n"@ + crate::model::lines_text(body) + "}"@;
    assert(crate::model::initializer_text(None) == Seq::<char>::empty());
    assert(crate::model::if_text(plain) == head + crate::model::else_text(crate::model::ElseView::NoElse));
    assert(crate::model::else_text(crate::model::ElseView::NoElse) == "\n"@);
    assert(crate::model::if_text(blocked) == head + crate::model::else_text(blocked.else_arm));
    assert(crate::model::else_text(blocked.else_arm) == " else {\n"@ + crate::model::lines_text(other) + "}\n"@);
    assert(crate::model::StmtView::If(plain).rendered() == crate::model::if_text(plain));
    assert(crate::model::StmtView::If(blocked).rendered() == crate::model::if_text(blocked));
    assert(crate::model::if_text(plain) =~= seq!['i', 'f', ' '] + crate::model::header_text(condition) + seq![' ', '{', '\n']
        + crate::model::lines_text(body) + seq!['}', '\n']);
    assert(crate::model::if_text(blocked) =~= seq!['i', 'f', ' '] + crate::model::header_text(condition) + seq![' ', '{', '\n']
        + crate::model::lines_text(body) + seq!['}', ' ', 'e', 'l', 's', 'e', ' ', '{', '\n'] + crate::model::lines_text(other)
        + seq!['}', '\n']);
    let inline = crate::model::IfView { else_arm: crate::model::ElseView::Else { body: other, inline: true }, ..plain };
    assert(crate::model::if_text(inline) == head + crate::model::else_text(inline.else_arm));
    assert(crate::model::else_text(inline.else_arm) == "\n"@ + crate::model::lines_text(other));
    assert(crate::model::StmtView::If(inline).rendered() == crate::model::if_text(inline));
    assert(crate::model::if_text(inline) =~= seq!['i', 'f', ' '] + crate::model::header_text(condition) + seq![' ', '{', '\n']
        + crate::model::lines_text(body) + seq!['}', '\n'] + crate::model::lines_text(other));
    let kind = crate::model::LoopKindView::Generated { label: None };
    let looping = crate::model::LoopView { prologue: Seq::empty(), kind, header: crate::model::HeaderView::While(condition), body };
    assert(crate::model::label_text(kind) == Seq::<char>::empty());
    assert(crate::model::loop_header_text(crate::model::HeaderView::While(condition)) == " "@ + crate::model::header_text(condition));
    assert(crate::model::loop_text(looping) == crate::model::lines_text(Seq::empty()) + crate::model::label_text(kind) + "for"@
        + crate::model::loop_header_text(crate::model::HeaderView::While(condition)) + " {\n"@ + crate::model::lines_text(body) + "}\n"@);
    assert(crate::model::StmtView::Loop(looping).rendered() == crate::model::loop_text(looping));
    let endless = crate::model::LoopView { header: crate::model::HeaderView::Infinite, ..looping };
    assert(crate::model::loop_header_text(crate::model::HeaderView::Infinite) == Seq::<char>::empty());
    assert(crate::model::loop_text(endless) == crate::model::lines_text(Seq::empty()) + crate::model::label_text(kind) + "for"@
        + crate::model::loop_header_text(crate::model::HeaderView::Infinite) + " {\n"@ + crate::model::lines_text(body) + "}\n"@);
    assert(crate::model::StmtView::Loop(endless).rendered() == crate::model::loop_text(endless));
    assert(crate::model::loop_text(endless) =~= seq!['f', 'o', 'r', ' ', '{', '\n'] + crate::model::lines_text(body) + seq!['}', '\n']);
    assert(crate::model::loop_text(looping) =~= seq!['f', 'o', 'r', ' '] + crate::model::header_text(condition) + seq![' ', '{', '\n']
        + crate::model::lines_text(body) + seq!['}', '\n']);
}

} // verus!
