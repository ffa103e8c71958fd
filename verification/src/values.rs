//! Go expressions with their constant kinds, and value plans: an expression
//! together with the setup statements it needs and the facts about how it
//! evaluates.

use crate::bodies::{LoweredBlock, LoweredStatement};
use crate::go_expression::{
    CompositeElement, CompositeLayout, FunctionLiteralLayout, GoExpressionNode, GoParameter,
};
use crate::model::{
    bound_view, free_slot, header_slot, rename_node, stmt_list_view, ElementView, ExprView,
    NodeView, ParamView,
};
use crate::text::{is_plain_identifier, same_text};
use vstd::prelude::*;
use vstd::string::StrSliceExecFns;
use vstd::pervasive::VecAdditionalExecFns;

verus! {

#[derive(Debug, Clone, Copy, PartialEq, Eq, Structural)]
pub enum OperandForm {
    Literal,
    Name,
    Call,
    Other,
}

#[derive(Debug, Clone, Copy, PartialEq, Eq, Structural)]
pub enum ConstantKind {
    Int,
    Rune,
    Float,
    Complex,
    Bool,
    String,
}

#[derive(Debug, PartialEq, Eq)]
pub struct GoExpression {
    pub node: GoExpressionNode,
    pub constant: Option<ConstantKind>,
}

#[derive(Debug, Clone, Copy, PartialEq, Eq, Structural)]
pub enum Stability {
    Literal,
    /// A name nothing can rebind before its readers run.
    Fixed,
    Observable,
    StableAcrossCalls,
}

#[derive(Debug, Clone, Copy, PartialEq, Eq, Structural)]
pub enum EvaluationEffect {
    Pure,
    PureCall,
    EffectfulCall,
}

#[derive(Debug, Clone, Copy, PartialEq, Eq, Structural)]
pub enum CaptureBoundary {
    SiblingSequence,
    DirectDelayedCall,
    DeferSite,
    TaskSite,
    LoopLifetime,
}

#[derive(Debug, Clone, Copy, PartialEq, Eq, Structural)]
pub struct EvaluationFacts {
    pub stability: Stability,
    pub effect: EvaluationEffect,
}

#[derive(Debug, PartialEq, Eq)]
pub struct ValuePlan {
    pub setup: Vec<LoweredStatement>,
    pub expression: GoExpression,
    pub evaluation: EvaluationFacts,
}

} // verus!

verus! {

// ---------------------------------------------------------------------------
// Constant kinds
// ---------------------------------------------------------------------------

/// The place of a kind in Go's constant order: a mixed numeric expression
/// takes the later kind.
pub open spec fn kind_rank(kind: ConstantKind) -> int {
    match kind {
        ConstantKind::Int => 0,
        ConstantKind::Rune => 1,
        ConstantKind::Float => 2,
        ConstantKind::Complex => 3,
        ConstantKind::Bool => 4,
        ConstantKind::String => 5,
    }
}

pub open spec fn is_numeric_kind(kind: ConstantKind) -> bool {
    kind is Int || kind is Rune || kind is Float || kind is Complex
}

/// The kind of a numeric constant expression mixing `a` and `b`.
pub open spec fn joined_kind(a: ConstantKind, b: ConstantKind) -> Option<ConstantKind> {
    if is_numeric_kind(a) && is_numeric_kind(b) {
        Some(
            if kind_rank(b) >= kind_rank(a) {
                b
            } else {
                a
            },
        )
    } else {
        None
    }
}

pub open spec fn is_comparison_or_logic(op: Seq<char>) -> bool {
    op == "=="@ || op == "!="@ || op == "<"@ || op == "<="@ || op == ">"@ || op == ">="@ || op
        == "&&"@ || op == "||"@
}

pub open spec fn is_arithmetic(op: Seq<char>) -> bool {
    op == "+"@ || op == "-"@ || op == "*"@ || op == "/"@ || op == "%"@ || op == "&"@ || op == "|"@
        || op == "^"@ || op == "&^"@
}

/// The constant kind of `left operator right`, when both sides are constants.
pub open spec fn binary_constant_kind(
    left: Option<ConstantKind>,
    operator: Seq<char>,
    right: Option<ConstantKind>,
) -> Option<ConstantKind> {
    match (left, right) {
        (Some(l), Some(r)) => if is_comparison_or_logic(operator) {
            Some(ConstantKind::Bool)
        } else if operator == "<<"@ || operator == ">>"@ {
            if is_numeric_kind(l) {
                Some(l)
            } else {
                None
            }
        } else if operator == "+"@ && l == ConstantKind::String && r == ConstantKind::String {
            Some(ConstantKind::String)
        } else if is_arithmetic(operator) {
            joined_kind(l, r)
        } else {
            None
        },
        _ => None,
    }
}

/// The constant kind of `operator value`, when the operand is a constant.
pub open spec fn unary_constant_kind(operator: Seq<char>, value: Option<ConstantKind>) -> Option<
    ConstantKind,
> {
    match value {
        Some(v) => if operator == "-"@ || operator == "+"@ || operator == "^"@ {
            if is_numeric_kind(v) {
                Some(v)
            } else {
                None
            }
        } else if operator == "!"@ {
            if v == ConstantKind::Bool {
                Some(v)
            } else {
                None
            }
        } else {
            None
        },
        None => None,
    }
}

impl ConstantKind {
    pub fn is_numeric(self) -> (r: bool)
        ensures
            r == is_numeric_kind(self),
    {
        match self {
            ConstantKind::Int | ConstantKind::Rune | ConstantKind::Float | ConstantKind::Complex => true,
            _ => false,
        }
    }

    fn rank(self) -> (r: u8)
        ensures
            r == kind_rank(self),
    {
        match self {
            ConstantKind::Int => 0,
            ConstantKind::Rune => 1,
            ConstantKind::Float => 2,
            ConstantKind::Complex => 3,
            ConstantKind::Bool => 4,
            ConstantKind::String => 5,
        }
    }

    /// The kind of a constant expression mixing two numeric kinds: the later
    /// one of `Int`, `Rune`, `Float`, `Complex`.
    pub fn join(self, other: Self) -> (r: Option<Self>)
        ensures
            r == joined_kind(self, other),
    {
        if self.is_numeric() && other.is_numeric() {
            if other.rank() >= self.rank() {
                Some(other)
            } else {
                Some(self)
            }
        } else {
            None
        }
    }
}

pub fn binary_constant(left: Option<ConstantKind>, operator: &str, right: Option<ConstantKind>) -> (r:
    Option<ConstantKind>)
    ensures
        r == binary_constant_kind(left, operator@, right),
{
    let (l, r) = match (left, right) {
        (Some(l), Some(r)) => (l, r),
        _ => {
            return None;
        },
    };
    if same_text(operator, "==") || same_text(operator, "!=") || same_text(operator, "<")
        || same_text(operator, "<=") || same_text(operator, ">") || same_text(operator, ">=")
        || same_text(operator, "&&") || same_text(operator, "||") {
        Some(ConstantKind::Bool)
    } else if same_text(operator, "<<") || same_text(operator, ">>") {
        if l.is_numeric() {
            Some(l)
        } else {
            None
        }
    } else if same_text(operator, "+") && l == ConstantKind::String && r == ConstantKind::String {
        Some(ConstantKind::String)
    } else if same_text(operator, "+") || same_text(operator, "-") || same_text(operator, "*")
        || same_text(operator, "/") || same_text(operator, "%") || same_text(operator, "&")
        || same_text(operator, "|") || same_text(operator, "^") || same_text(operator, "&^") {
        l.join(r)
    } else {
        None
    }
}

pub fn unary_constant(operator: &str, value: Option<ConstantKind>) -> (r: Option<ConstantKind>)
    ensures
        r == unary_constant_kind(operator@, value),
{
    let v = match value {
        Some(v) => v,
        None => {
            return None;
        },
    };
    if same_text(operator, "-") || same_text(operator, "+") || same_text(operator, "^") {
        if v.is_numeric() {
            Some(v)
        } else {
            None
        }
    } else if same_text(operator, "!") {
        if v == ConstantKind::Bool {
            Some(v)
        } else {
            None
        }
    } else {
        None
    }
}

} // verus!

verus! {

// ---------------------------------------------------------------------------
// Go expressions
// ---------------------------------------------------------------------------

/// How an operand reads: a literal, a name, a call, or anything else. A
/// generic instantiation reads as what it instantiates.
pub open spec fn syntax_form_of(node: NodeView) -> OperandForm
    decreases node,
{
    match node {
        NodeView::Identifier(_) | NodeView::Qualified { .. } => OperandForm::Name,
        NodeView::Literal(_) | NodeView::CompositeLiteral { .. } => OperandForm::Literal,
        NodeView::Call { .. } => OperandForm::Call,
        NodeView::Instantiation { base, .. } => syntax_form_of(*base),
        _ => OperandForm::Other,
    }
}

pub open spec fn plain_expr(node: NodeView) -> ExprView {
    ExprView { node, constant: None }
}

pub open spec fn element_pair_view(pair: (Option<GoExpression>, GoExpression)) -> ElementView {
    ElementView {
        key: match pair.0 {
            Some(k) => Some(k@.node),
            None => None,
        },
        value: pair.1@.node,
    }
}

pub fn syntax_form(node: &GoExpressionNode) -> (form: OperandForm)
    ensures
        form == syntax_form_of(node@),
    decreases node,
{
    match node {
        GoExpressionNode::Identifier(_) | GoExpressionNode::Qualified { .. } => OperandForm::Name,
        GoExpressionNode::Literal(_) | GoExpressionNode::CompositeLiteral { .. } => {
            OperandForm::Literal
        },
        GoExpressionNode::Call { .. } => OperandForm::Call,
        GoExpressionNode::Instantiation { base, .. } => syntax_form(base),
        _ => OperandForm::Other,
    }
}

impl GoExpression {
    pub fn new(node: GoExpressionNode) -> (e: Self)
        ensures
            e@ == plain_expr(node@),
    {
        GoExpression { node, constant: None }
    }

    /// A constant literal of the given kind.
    pub fn constant(rendered: String, kind: ConstantKind) -> (e: Self)
        ensures
            e@ == (ExprView { node: NodeView::Literal(rendered@), constant: Some(kind) }),
    {
        Self::literal(rendered).with_constant(Some(kind))
    }

    pub fn with_constant(self, constant: Option<ConstantKind>) -> (e: Self)
        ensures
            e@ == (ExprView { node: self@.node, constant }),
    {
        GoExpression { node: self.node, constant }
    }

    pub fn constant_kind(&self) -> (k: Option<ConstantKind>)
        ensures
            k == self@.constant,
    {
        self.constant
    }

    /// An identifier; `value` is one Go name.
    pub fn name(value: String) -> (e: Self)
        requires
            is_plain_identifier(value@),
        ensures
            e@ == plain_expr(NodeView::Identifier(value@)),
    {
        Self::new(GoExpressionNode::Identifier(value))
    }

    /// The expression naming `value`, if `value` is one plain Go name.
    pub fn try_name(value: String) -> (e: Option<Self>)
        ensures
            match e {
                Some(named) => is_plain_identifier(value@) && named@ == plain_expr(NodeView::Identifier(value@)),
                None => !is_plain_identifier(value@),
            },
    {
        if crate::text::is_plain_identifier_text(value.as_str()) {
            Some(Self::name(value))
        } else {
            None
        }
    }

    /// `package.name`.
    pub fn qualified(package: String, name: String) -> (e: Self)
        ensures
            e@ == plain_expr(NodeView::Qualified { package: package@, name: name@ }),
    {
        Self::new(GoExpressionNode::Qualified { package, name })
    }

    pub fn nil() -> (e: Self)
        ensures
            e@ == plain_expr(NodeView::Literal("nil"@)),
    {
        Self::literal("nil".to_owned())
    }

    /// The value of a lowering that produced only statements.
    pub fn empty() -> (e: Self)
        ensures
            e@ == plain_expr(NodeView::Empty),
    {
        Self::new(GoExpressionNode::Empty)
    }

    pub fn verbatim(source: String) -> (e: Self)
        ensures
            e@ == plain_expr(NodeView::Verbatim(source@)),
    {
        Self::new(GoExpressionNode::Verbatim(source))
    }

    pub fn literal(rendered: String) -> (e: Self)
        ensures
            e@ == plain_expr(NodeView::Literal(rendered@)),
    {
        Self::new(GoExpressionNode::Literal(rendered))
    }

    pub fn type_operand(go_type: String) -> (e: Self)
        ensures
            e@ == plain_expr(NodeView::Type(go_type@)),
    {
        Self::new(GoExpressionNode::Type(go_type))
    }

    /// A composite literal of `(key, value)` elements.
    pub fn composite(
        go_type: Option<String>,
        elements: Vec<(Option<GoExpression>, GoExpression)>,
        layout: CompositeLayout,
    ) -> (e: Self)
        ensures
            e@ == plain_expr(
                NodeView::CompositeLiteral {
                    go_type: crate::model::opt_text(go_type),
                    elements: Seq::new(elements@.len(), |i: int| element_pair_view(elements@[i])),
                    layout,
                },
            ),
    {
        let ghost pairs = elements@;
        let mut pending = elements;
        let mut converted: Vec<CompositeElement> = Vec::new();
        let mut i: usize = 0;
        while i < pending.len()
            invariant
                pending@.len() == pairs.len(),
                i <= pending@.len(),
                converted@.len() == i,
                forall|j: int| i <= j < pairs.len() ==> #[trigger] pending@[j] == pairs[j],
                forall|j: int| 0 <= j < i ==> #[trigger] converted@[j]@ == element_pair_view(pairs[j]),
            decreases pending@.len() - i,
        {
            let mut pair: (Option<GoExpression>, GoExpression) = (None, GoExpression::empty());
            pending.set_and_swap(i, &mut pair);
            let (key, value) = pair;
            let key_node = match key {
                Some(k) => Some(k.node),
                None => None,
            };
            converted.push(CompositeElement { key: key_node, value: value.node });
            i = i + 1;
        }
        let ghost target = Seq::new(pairs.len(), |i: int| element_pair_view(pairs[i]));
        let node = GoExpressionNode::CompositeLiteral { go_type, elements: converted, layout };
        proof {
            let nv = node@;
            assert forall|j: int| 0 <= j < pairs.len() implies #[trigger] nv->CompositeLiteral_elements[j]
                == target[j] by {
                assert(nv->CompositeLiteral_elements[j] == converted@[j]@);
            }
            assert(nv->CompositeLiteral_elements =~= target);
        }
        Self::new(node)
    }

    /// `T{}` with no elements.
    pub fn empty_composite(go_type: String) -> (e: Self)
        ensures
            e@ == plain_expr(
                NodeView::CompositeLiteral {
                    go_type: Some(go_type@),
                    elements: Seq::empty(),
                    layout: CompositeLayout::Inline { padded: true },
                },
            ),
    {
        let e = Self::composite(Some(go_type), Vec::new(), CompositeLayout::Inline { padded: true });
        assert(e@.node->CompositeLiteral_elements =~= Seq::<ElementView>::empty());
        e
    }

    /// The callee without its type arguments, for a call site that
    /// re-instantiates.
    pub fn without_instantiation(self) -> (e: Self)
        ensures
            e@ == uninstantiated(self@),
    {
        match self.node {
            GoExpressionNode::Instantiation { base, .. } => Self::new(*base),
            node => GoExpression { node, constant: self.constant },
        }
    }

    /// Drops the type of a composite literal nested in a literal of
    /// `element_type`.
    pub fn elide_composite_type(self, element_type: &str) -> (e: Self)
        ensures
            e@ == (match self@.node {
                NodeView::CompositeLiteral { go_type: Some(t), elements, layout } => if t
                    == element_type@ {
                    ExprView {
                        node: NodeView::CompositeLiteral { go_type: None, elements, layout },
                        constant: self@.constant,
                    }
                } else {
                    self@
                },
                _ => self@,
            }),
    {
        let constant = self.constant;
        match self.node {
            GoExpressionNode::CompositeLiteral { go_type: Some(t), elements, layout } => {
                if same_text(t.as_str(), element_type) {
                    GoExpression {
                        node: GoExpressionNode::CompositeLiteral { go_type: None, elements, layout },
                        constant,
                    }
                } else {
                    GoExpression {
                        node: GoExpressionNode::CompositeLiteral { go_type: Some(t), elements, layout },
                        constant,
                    }
                }
            },
            node => GoExpression { node, constant },
        }
    }

    /// `base[T, U]`, or `base` itself when there are no type arguments.
    pub fn instantiation(base: GoExpression, type_arguments: String) -> (e: Self)
        ensures
            e@ == instantiated(base@, type_arguments@),
    {
        if type_arguments.as_str().unicode_len() == 0 {
            return base;
        }
        Self::new(GoExpressionNode::Instantiation { base: Box::new(base.node), type_arguments })
    }

    pub fn type_assertion(base: GoExpression, go_type: String) -> (e: Self)
        ensures
            e@ == plain_expr(
                NodeView::TypeAssertion { base: Box::new(base@.node), go_type: go_type@ },
            ),
    {
        Self::new(GoExpressionNode::TypeAssertion { base: Box::new(base.node), go_type })
    }

    pub fn address_of(operand: GoExpression) -> (e: Self)
        ensures
            e@ == plain_expr(NodeView::AddressOf(Box::new(operand@.node))),
    {
        Self::new(GoExpressionNode::AddressOf(Box::new(operand.node)))
    }

    pub fn dereference(operand: GoExpression) -> (e: Self)
        ensures
            e@ == plain_expr(NodeView::Dereference(Box::new(operand@.node))),
    {
        Self::new(GoExpressionNode::Dereference(Box::new(operand.node)))
    }

    pub fn spread(operand: GoExpression) -> (e: Self)
        ensures
            e@ == plain_expr(NodeView::Spread(Box::new(operand@.node))),
    {
        Self::new(GoExpressionNode::Spread(Box::new(operand.node)))
    }

    pub fn function_literal(
        parameters: Vec<GoParameter>,
        result: String,
        body: LoweredBlock,
        layout: FunctionLiteralLayout,
    ) -> (e: Self)
        ensures
            e@ == plain_expr(
                NodeView::FunctionLiteral {
                    parameters: Seq::new(
                        parameters@.len(),
                        |i: int|
                            ParamView { name: parameters@[i].name@, go_type: parameters@[i].go_type@ },
                    ),
                    result: result@,
                    body: body@,
                    layout,
                },
            ),
    {
        Self::new(GoExpressionNode::FunctionLiteral { parameters, result, body, layout })
    }

    /// A function literal without parameters, called where it stands.
    pub fn immediate_call(result: String, body: LoweredBlock, layout: FunctionLiteralLayout) -> (e:
        Self)
        ensures
            e@ == plain_expr(
                NodeView::Call {
                    callee: Box::new(
                        NodeView::FunctionLiteral {
                            parameters: Seq::empty(),
                            result: result@,
                            body: body@,
                            layout,
                        },
                    ),
                    arguments: Seq::empty(),
                },
            ),
    {
        let e = Self::call(Self::function_literal(Vec::new(), result, body, layout), Vec::new());
        proof {
            assert(e@.node->Call_arguments =~= Seq::<NodeView>::empty());
            assert(e@.node->Call_callee->FunctionLiteral_parameters =~= Seq::<ParamView>::empty());
        }
        e
    }

    pub fn call(callee: GoExpression, arguments: Vec<GoExpression>) -> (e: Self)
        ensures
            e@ == plain_expr(
                NodeView::Call {
                    callee: Box::new(callee@.node),
                    arguments: Seq::new(arguments@.len(), |i: int| arguments@[i]@.node),
                },
            ),
    {
        let ghost args = arguments@;
        let mut pending = arguments;
        let mut nodes: Vec<GoExpressionNode> = Vec::new();
        let mut i: usize = 0;
        while i < pending.len()
            invariant
                pending@.len() == args.len(),
                i <= pending@.len(),
                nodes@.len() == i,
                forall|j: int| i <= j < args.len() ==> #[trigger] pending@[j] == args[j],
                forall|j: int| 0 <= j < i ==> #[trigger] nodes@[j]@ == args[j]@.node,
            decreases pending@.len() - i,
        {
            let mut item = GoExpression::empty();
            pending.set_and_swap(i, &mut item);
            nodes.push(item.node);
            i = i + 1;
        }
        let ghost target = Seq::new(args.len(), |i: int| args[i]@.node);
        let node = GoExpressionNode::Call { callee: Box::new(callee.node), arguments: nodes };
        proof {
            let nv = node@;
            assert forall|j: int| 0 <= j < args.len() implies #[trigger] nv->Call_arguments[j] == target[j] by {
                assert(nv->Call_arguments[j] == nodes@[j]@);
            }
            assert(nv->Call_arguments =~= target);
        }
        Self::new(node)
    }

    /// `left operator right`, a constant when both sides are and Go gives the
    /// result a constant kind.
    pub fn binary(left: GoExpression, operator: String, right: GoExpression) -> (e: Self)
        ensures
            e@ == (ExprView {
                node: NodeView::Binary {
                    operator: operator@,
                    left: Box::new(left@.node),
                    right: Box::new(right@.node),
                },
                constant: binary_constant_kind(left@.constant, operator@, right@.constant),
            }),
    {
        let constant = binary_constant(left.constant, operator.as_str(), right.constant);
        let node = GoExpressionNode::Binary {
            operator,
            left: Box::new(left.node),
            right: Box::new(right.node),
        };
        Self::new(node).with_constant(constant)
    }

    pub fn selector(base: GoExpression, field: String) -> (e: Self)
        ensures
            e@ == plain_expr(NodeView::Selector { base: Box::new(base@.node), field: field@ }),
    {
        Self::new(GoExpressionNode::Selector { base: Box::new(base.node), field })
    }

    pub fn index(base: GoExpression, index: GoExpression) -> (e: Self)
        ensures
            e@ == plain_expr(
                NodeView::Index { base: Box::new(base@.node), index: Box::new(index@.node) },
            ),
    {
        Self::new(GoExpressionNode::Index { base: Box::new(base.node), index: Box::new(index.node) })
    }

    pub fn conversion(go_type: String, value: GoExpression) -> (e: Self)
        ensures
            e@ == plain_expr(
                NodeView::Conversion { go_type: go_type@, operand: Box::new(value@.node) },
            ),
    {
        Self::new(GoExpressionNode::Conversion { go_type, operand: Box::new(value.node) })
    }

    /// `operator value`, a constant when the operand is one of a kind the
    /// operator applies to.
    pub fn unary(operator: &str, value: GoExpression) -> (e: Self)
        ensures
            e@ == (ExprView {
                node: NodeView::Unary { operator: operator@, operand: Box::new(value@.node) },
                constant: unary_constant_kind(operator@, value@.constant),
            }),
    {
        let constant = unary_constant(operator, value.constant);
        let node = GoExpressionNode::Unary {
            operator: operator.to_owned(),
            operand: Box::new(value.node),
        };
        Self::new(node).with_constant(constant)
    }

    /// `base[start:end:capacity]`, each bound where there is one.
    pub fn slice(
        base: GoExpression,
        start: Option<GoExpression>,
        end: Option<GoExpression>,
        capacity: Option<GoExpression>,
    ) -> (e: Self)
        ensures
            e@ == plain_expr(
                NodeView::Slice {
                    base: Box::new(base@.node),
                    low: opt_bound(start),
                    high: opt_bound(end),
                    max: opt_bound(capacity),
                },
            ),
    {
        let node = GoExpressionNode::Slice {
            base: Box::new(base.node),
            low: Self::boxed(start),
            high: Self::boxed(end),
            max: Self::boxed(capacity),
        };
        Self::new(node)
    }

    fn boxed(bound: Option<GoExpression>) -> (b: Option<Box<GoExpressionNode>>)
        ensures
            bound_view(&b) == opt_bound(bound),
    {
        match bound {
            Some(e) => Some(Box::new(e.node)),
            None => None,
        }
    }

    /// Lifts a subtree taken out of another expression.
    pub fn from_node(node: GoExpressionNode) -> (e: Self)
        ensures
            e@ == plain_expr(node@),
    {
        Self::new(node)
    }

    pub fn node(&self) -> (n: &GoExpressionNode)
        ensures
            n@ == self@.node,
    {
        &self.node
    }

    /// The Go text of the expression.
    pub fn rendered(&self) -> (text: String)
        ensures
            text@ == self@.node.text(free_slot()),
    {
        self.node.print()
    }

    /// The Go text inside a statement header.
    pub fn print_header(&self) -> (text: String)
        ensures
            text@ == self@.node.text(header_slot()),
    {
        self.node.print_header()
    }

    pub fn rename_identifier(&mut self, from: &str, to: &str)
        ensures
            final(self)@ == (ExprView {
                node: rename_node(old(self)@.node, from@, to@),
                constant: old(self)@.constant,
            }),
    {
        self.node.rename_identifier(from, to);
    }

    pub fn as_identifier(&self) -> (name: Option<&str>)
        ensures
            match name {
                Some(n) => self@.node == NodeView::Identifier(n@),
                None => !(self@.node is Identifier),
            },
    {
        match &self.node {
            GoExpressionNode::Identifier(name) => Some(name.as_str()),
            _ => None,
        }
    }

    pub fn as_literal(&self) -> (value: Option<&str>)
        ensures
            match value {
                Some(v) => self@.node == NodeView::Literal(v@),
                None => !(self@.node is Literal),
            },
    {
        match &self.node {
            GoExpressionNode::Literal(value) => Some(value.as_str()),
            _ => None,
        }
    }

    pub fn is_composite_literal(&self) -> (r: bool)
        ensures
            r == self@.node is CompositeLiteral,
    {
        match &self.node {
            GoExpressionNode::CompositeLiteral { .. } => true,
            _ => false,
        }
    }

    pub fn is_literal(&self) -> (r: bool)
        ensures
            r == (syntax_form_of(self@.node) == OperandForm::Literal),
    {
        match self.syntax_form() {
            OperandForm::Literal => true,
            _ => false,
        }
    }

    pub fn syntax_form(&self) -> (form: OperandForm)
        ensures
            form == syntax_form_of(self@.node),
    {
        syntax_form(&self.node)
    }

    /// Nothing is written for the expression.
    pub fn is_empty(&self) -> (r: bool)
        ensures
            r == (match self@.node {
                NodeView::Empty => true,
                NodeView::Verbatim(source) => source.len() == 0,
                _ => false,
            }),
    {
        match &self.node {
            GoExpressionNode::Empty => true,
            GoExpressionNode::Verbatim(source) => source.as_str().unicode_len() == 0,
            _ => false,
        }
    }

    pub fn does_work(&self) -> (r: bool)
        ensures
            r == self@.node.does_work(),
    {
        self.node.does_work()
    }
}

/// `base[type_arguments]`, or `base` itself when there are none.
pub open spec fn instantiated(base: ExprView, type_arguments: Seq<char>) -> ExprView {
    if type_arguments.len() == 0 {
        base
    } else {
        plain_expr(NodeView::Instantiation { base: Box::new(base.node), type_arguments })
    }
}

/// The expression without its type arguments.
pub open spec fn uninstantiated(e: ExprView) -> ExprView {
    match e.node {
        NodeView::Instantiation { base, .. } => plain_expr(*base),
        _ => e,
    }
}

/// Instantiating with no type arguments keeps the expression; with some, it
/// wraps the expression's node, and dropping the type arguments again gives
/// back that node as a plain expression.
pub proof fn law_without_instantiation_undoes_instantiation(base: ExprView, type_arguments: Seq<char>)
    ensures
        instantiated(base, Seq::empty()) == base,
        type_arguments.len() > 0 ==> instantiated(base, type_arguments).node == (NodeView::Instantiation {
            base: Box::new(base.node),
            type_arguments,
        }),
        type_arguments.len() > 0 ==> uninstantiated(instantiated(base, type_arguments)) == plain_expr(base.node),
{
}

pub open spec fn opt_bound(bound: Option<GoExpression>) -> Option<Box<NodeView>> {
    match bound {
        Some(e) => Some(Box::new(e@.node)),
        None => None,
    }
}

} // verus!

verus! {

// ---------------------------------------------------------------------------
// How a value evaluates
// ---------------------------------------------------------------------------

pub open spec fn effect_rank(effect: EvaluationEffect) -> int {
    match effect {
        EvaluationEffect::Pure => 0,
        EvaluationEffect::PureCall => 1,
        EvaluationEffect::EffectfulCall => 2,
    }
}

/// The stronger of two effects: a value that makes an effectful call anywhere
/// makes one.
pub open spec fn combined_effect(a: EvaluationEffect, b: EvaluationEffect) -> EvaluationEffect {
    if effect_rank(b) >= effect_rank(a) {
        b
    } else {
        a
    }
}

pub open spec fn is_fixed_stability(stability: Stability) -> bool {
    stability is Literal || stability is Fixed
}

pub open spec fn facts(stability: Stability, effect: EvaluationEffect) -> EvaluationFacts {
    EvaluationFacts { stability, effect }
}

impl Stability {
    /// Nothing can change the value before its readers run.
    pub fn is_fixed(self) -> (r: bool)
        ensures
            r == is_fixed_stability(self),
    {
        match self {
            Stability::Literal | Stability::Fixed => true,
            _ => false,
        }
    }

    pub fn is_observable(self) -> (r: bool)
        ensures
            r == !is_fixed_stability(self),
    {
        !self.is_fixed()
    }

    pub fn is_stable_across_calls(self) -> (r: bool)
        ensures
            r == (self is StableAcrossCalls),
    {
        match self {
            Stability::StableAcrossCalls => true,
            _ => false,
        }
    }
}

impl EvaluationEffect {
    pub fn combine(self, other: Self) -> (r: Self)
        ensures
            r == combined_effect(self, other),
    {
        let a: u8 = match self {
            EvaluationEffect::Pure => 0,
            EvaluationEffect::PureCall => 1,
            EvaluationEffect::EffectfulCall => 2,
        };
        let b: u8 = match other {
            EvaluationEffect::Pure => 0,
            EvaluationEffect::PureCall => 1,
            EvaluationEffect::EffectfulCall => 2,
        };
        if b >= a {
            other
        } else {
            self
        }
    }

    pub fn has_call(self) -> (r: bool)
        ensures
            r == !(self is Pure),
    {
        match self {
            EvaluationEffect::Pure => false,
            _ => true,
        }
    }

    pub fn has_effectful_call(self) -> (r: bool)
        ensures
            r == (self is EffectfulCall),
    {
        match self {
            EvaluationEffect::EffectfulCall => true,
            _ => false,
        }
    }
}

impl CaptureBoundary {
    /// A value read across this boundary must be captured first unless
    /// nothing can change it meanwhile.
    pub fn requires_value_capture(self, stability: Stability) -> (r: bool)
        ensures
            r == (!(self is SiblingSequence || self is DirectDelayedCall) && !is_fixed_stability(
                stability,
            )),
    {
        let crosses = match self {
            CaptureBoundary::SiblingSequence | CaptureBoundary::DirectDelayedCall => false,
            _ => true,
        };
        crosses && stability.is_observable()
    }
}

impl EvaluationFacts {
    pub fn new(stability: Stability, effect: EvaluationEffect) -> (f: Self)
        ensures
            f == facts(stability, effect),
    {
        EvaluationFacts { stability, effect }
    }

    pub fn literal() -> (f: Self)
        ensures
            f == facts(Stability::Literal, EvaluationEffect::Pure),
    {
        Self::new(Stability::Literal, EvaluationEffect::Pure)
    }

    pub fn value(effect: EvaluationEffect) -> (f: Self)
        ensures
            f == facts(Stability::Observable, effect),
    {
        Self::new(Stability::Observable, effect)
    }

    pub fn call(effect: EvaluationEffect) -> (f: Self)
        ensures
            f == facts(Stability::StableAcrossCalls, effect),
    {
        Self::new(Stability::StableAcrossCalls, effect)
    }

    pub fn with_stability(self, stability: Stability) -> (f: Self)
        ensures
            f == facts(stability, self.effect),
    {
        EvaluationFacts { stability, effect: self.effect }
    }
}

} // verus!

verus! {

// ---------------------------------------------------------------------------
// Value plans
// ---------------------------------------------------------------------------

pub open spec fn plan_view(
    setup: Seq<crate::model::StmtView>,
    expression: ExprView,
    evaluation: EvaluationFacts,
) -> crate::model::ValueView {
    crate::model::ValueView { setup, expression, evaluation }
}

/// The facts of an expression that a source binding with `stability` names:
/// only a bare name inherits the binding's stability.
pub open spec fn identifier_facts(node: NodeView, stability: Stability) -> EvaluationFacts {
    match syntax_form_of(node) {
        OperandForm::Literal => facts(Stability::Literal, EvaluationEffect::Pure),
        OperandForm::Call => facts(Stability::StableAcrossCalls, EvaluationEffect::PureCall),
        OperandForm::Name => facts(stability, EvaluationEffect::Pure),
        OperandForm::Other => facts(
            if !is_fixed_stability(stability) {
                Stability::Observable
            } else {
                Stability::StableAcrossCalls
            },
            EvaluationEffect::Pure,
        ),
    }
}

impl ValuePlan {
    pub fn from_facts(
        setup: Vec<LoweredStatement>,
        expression: GoExpression,
        evaluation: EvaluationFacts,
    ) -> (plan: Self)
        ensures
            plan@ == plan_view(stmt_list_view(&setup), expression@, evaluation),
    {
        ValuePlan { setup, expression, evaluation }
    }

    pub fn constant(rendered: String, kind: ConstantKind) -> (plan: Self)
        ensures
            plan@ == plan_view(
                Seq::empty(),
                ExprView { node: NodeView::Literal(rendered@), constant: Some(kind) },
                facts(Stability::Literal, EvaluationEffect::Pure),
            ),
    {
        let plan = Self::from_facts(
            Vec::new(),
            GoExpression::constant(rendered, kind),
            EvaluationFacts::literal(),
        );
        assert(plan@.setup =~= Seq::empty());
        plan
    }

    pub fn literal(rendered: String) -> (plan: Self)
        ensures
            plan@ == plan_view(
                Seq::empty(),
                plain_expr(NodeView::Literal(rendered@)),
                facts(Stability::Literal, EvaluationEffect::Pure),
            ),
    {
        let plan = Self::from_facts(Vec::new(), GoExpression::literal(rendered), EvaluationFacts::literal());
        assert(plan@.setup =~= Seq::empty());
        plan
    }

    pub fn evaluated_literal(
        setup: Vec<LoweredStatement>,
        rendered: String,
        effect: EvaluationEffect,
    ) -> (plan: Self)
        ensures
            plan@ == plan_view(
                stmt_list_view(&setup),
                plain_expr(NodeView::Literal(rendered@)),
                facts(Stability::Observable, effect),
            ),
    {
        Self::from_facts(
            setup,
            GoExpression::literal(rendered),
            EvaluationFacts::new(Stability::Observable, effect),
        )
    }

    /// A name the setup just bound, or which nothing can rebind.
    pub fn captured(setup: Vec<LoweredStatement>, name: String) -> (plan: Self)
        requires
            is_plain_identifier(name@),
        ensures
            plan@ == plan_view(
                stmt_list_view(&setup),
                plain_expr(NodeView::Identifier(name@)),
                facts(Stability::Fixed, EvaluationEffect::Pure),
            ),
    {
        Self::captured_with_effect(setup, name, EvaluationEffect::Pure)
    }

    pub fn captured_with_effect(
        setup: Vec<LoweredStatement>,
        name: String,
        effect: EvaluationEffect,
    ) -> (plan: Self)
        requires
            is_plain_identifier(name@),
        ensures
            plan@ == plan_view(
                stmt_list_view(&setup),
                plain_expr(NodeView::Identifier(name@)),
                facts(Stability::Fixed, effect),
            ),
    {
        Self::from_facts(setup, GoExpression::name(name), EvaluationFacts::new(Stability::Fixed, effect))
    }

    pub fn computed(
        setup: Vec<LoweredStatement>,
        expression: GoExpression,
        effect: EvaluationEffect,
    ) -> (plan: Self)
        ensures
            plan@ == plan_view(
                stmt_list_view(&setup),
                expression@,
                facts(Stability::Observable, effect),
            ),
    {
        Self::from_facts(setup, expression, EvaluationFacts::value(effect))
    }

    /// `stability` describes the binding, so only a bare name inherits it
    /// whole: a composite form re-reads whatever it is built from.
    pub fn from_identifier_expression(expression: GoExpression, stability: Stability) -> (plan: Self)
        ensures
            plan@ == plan_view(
                Seq::empty(),
                expression@,
                identifier_facts(expression@.node, stability),
            ),
    {
        let evaluation = match expression.syntax_form() {
            OperandForm::Literal => EvaluationFacts::literal(),
            OperandForm::Call => EvaluationFacts::call(EvaluationEffect::PureCall),
            OperandForm::Name => EvaluationFacts::new(stability, EvaluationEffect::Pure),
            OperandForm::Other => EvaluationFacts::value(EvaluationEffect::Pure).with_stability(
                if stability.is_observable() {
                    Stability::Observable
                } else {
                    Stability::StableAcrossCalls
                },
            ),
        };
        let plan = Self::from_facts(Vec::new(), expression, evaluation);
        assert(plan@.setup =~= Seq::empty());
        plan
    }

    pub fn plain_call(
        setup: Vec<LoweredStatement>,
        expression: GoExpression,
        effect: EvaluationEffect,
    ) -> (plan: Self)
        ensures
            plan@ == plan_view(
                stmt_list_view(&setup),
                expression@,
                facts(Stability::StableAcrossCalls, effect),
            ),
    {
        Self::from_facts(setup, expression, EvaluationFacts::call(effect))
    }

    pub fn observable_call(
        setup: Vec<LoweredStatement>,
        expression: GoExpression,
        effect: EvaluationEffect,
    ) -> (plan: Self)
        ensures
            plan@ == plan_view(stmt_list_view(&setup), expression@, facts(Stability::Observable, effect)),
    {
        Self::from_facts(
            setup,
            expression,
            EvaluationFacts::call(effect).with_stability(Stability::Observable),
        )
    }

    pub fn verbatim(source: String) -> (plan: Self)
        ensures
            plan@ == plan_view(
                Seq::empty(),
                plain_expr(NodeView::Verbatim(source@)),
                facts(Stability::Observable, EvaluationEffect::Pure),
            ),
    {
        let plan = Self::computed(Vec::new(), GoExpression::verbatim(source), EvaluationEffect::Pure);
        assert(plan@.setup =~= Seq::empty());
        plan
    }

    /// Rewrites the expression, which may add setup; the facts stay.
    pub fn map_expression<F: FnOnce(Vec<LoweredStatement>, GoExpression) -> (Vec<LoweredStatement>, GoExpression)>(
        self,
        transform: F,
    ) -> (plan: Self)
        requires
            transform.requires((self.setup, self.expression)),
        ensures
            transform.ensures((self.setup, self.expression), (plan.setup, plan.expression)),
            plan.evaluation == self.evaluation,
    {
        let ValuePlan { setup, expression, evaluation } = self;
        let (setup, expression) = transform(setup, expression);
        ValuePlan { setup, expression, evaluation }
    }

    /// Rewrites the expression into one that re-reads its parts.
    pub fn map_observable_expression<F: FnOnce(Vec<LoweredStatement>, GoExpression) -> (Vec<LoweredStatement>, GoExpression)>(
        self,
        transform: F,
    ) -> (plan: Self)
        requires
            transform.requires((self.setup, self.expression)),
        ensures
            transform.ensures((self.setup, self.expression), (plan.setup, plan.expression)),
            plan.evaluation == facts(Stability::Observable, self.evaluation.effect),
    {
        let ValuePlan { setup, expression, evaluation } = self;
        let (setup, expression) = transform(setup, expression);
        ValuePlan { setup, expression, evaluation: EvaluationFacts::new(Stability::Observable, evaluation.effect) }
    }

    pub fn make_observable(&mut self)
        ensures
            final(self)@ == plan_view(
                old(self)@.setup,
                old(self)@.expression,
                facts(Stability::Observable, old(self)@.evaluation.effect),
            ),
    {
        self.evaluation.stability = Stability::Observable;
    }

    pub fn stable_across_calls_if(self, stable_across_calls: bool) -> (plan: Self)
        ensures
            plan@ == (if stable_across_calls {
                plan_view(
                    self@.setup,
                    self@.expression,
                    facts(Stability::StableAcrossCalls, self@.evaluation.effect),
                )
            } else {
                self@
            }),
    {
        let mut plan = self;
        if stable_across_calls {
            plan.evaluation.stability = Stability::StableAcrossCalls;
        }
        plan
    }

    pub fn into_addressed_location(self) -> (plan: Self)
        ensures
            plan@ == plan_view(
                self@.setup,
                self@.expression,
                facts(Stability::StableAcrossCalls, self@.evaluation.effect),
            ),
    {
        let mut plan = self;
        plan.evaluation.stability = Stability::StableAcrossCalls;
        plan
    }

    /// The value now reads a name that pins it.
    pub fn replace_with_pinned_name(&mut self, name: String)
        requires
            is_plain_identifier(name@),
        ensures
            final(self)@ == plan_view(
                old(self)@.setup,
                plain_expr(NodeView::Identifier(name@)),
                facts(old(self)@.evaluation.stability, EvaluationEffect::Pure),
            ),
    {
        self.expression = GoExpression::name(name);
        self.evaluation.effect = EvaluationEffect::Pure;
    }

    /// The value is built by a constructor call that has no effect of its own.
    pub fn with_pure_constructor_evaluation(self) -> (plan: Self)
        ensures
            plan@ == plan_view(
                self@.setup,
                self@.expression,
                facts(
                    if syntax_form_of(self@.expression.node) == OperandForm::Call {
                        Stability::StableAcrossCalls
                    } else {
                        Stability::Observable
                    },
                    combined_effect(EvaluationEffect::PureCall, self@.evaluation.effect),
                ),
            ),
    {
        let mut plan = self;
        plan.evaluation.effect = EvaluationEffect::PureCall.combine(plan.evaluation.effect);
        plan.evaluation.stability = match plan.expression.syntax_form() {
            OperandForm::Call => Stability::StableAcrossCalls,
            _ => Stability::Observable,
        };
        plan
    }

    pub fn with_stability(self, stability: Stability) -> (plan: Self)
        ensures
            plan@ == plan_view(self@.setup, self@.expression, facts(stability, self@.evaluation.effect)),
    {
        let mut plan = self;
        plan.evaluation.stability = stability;
        plan
    }

    /// The Go text of the value's expression.
    pub fn rendered(&self) -> (text: String)
        ensures
            text@ == self@.expression.node.text(free_slot()),
    {
        self.expression.rendered()
    }

    /// `rendered` is a name this plan's own setup bound last. Callers must
    /// also check that no source binding answers to it.
    pub fn rests_in_own_temp(&self, rendered: &str) -> (r: bool)
        ensures
            r == (is_plain_identifier(rendered@) && self@.setup.len() > 0
                && crate::bodies::stmt_bound_name(self@.setup.last()) == Some(rendered@)),
    {
        if !crate::text::is_plain_identifier_text(rendered) {
            return false;
        }
        let n = self.setup.len();
        if n == 0 {
            return false;
        }
        self.setup[n - 1].binds_name(rendered)
    }

    /// The value is a name that nothing can rebind before it is read.
    pub fn rests_in_fixed_name(&self) -> (r: bool)
        ensures
            r == (syntax_form_of(self@.expression.node) == OperandForm::Name && is_fixed_stability(
                self@.evaluation.stability,
            )),
    {
        let named = match self.expression.syntax_form() {
            OperandForm::Name => true,
            _ => false,
        };
        named && self.evaluation.stability.is_fixed()
    }

    pub fn is_empty(&self) -> (r: bool)
        ensures
            r == (match self@.expression.node {
                NodeView::Empty => true,
                NodeView::Verbatim(source) => source.len() == 0,
                _ => false,
            }),
    {
        self.expression.is_empty()
    }

    pub fn into_parts(self) -> (parts: (Vec<LoweredStatement>, GoExpression))
        ensures
            parts.0 == self.setup,
            parts.1 == self.expression,
    {
        (self.setup, self.expression)
    }

    /// The value converted to `go_type`; a conversion re-reads its operand
    /// unless the operand is stable across calls.
    pub fn conversion(self, go_type: String) -> (plan: Self)
        ensures
            plan@ == plan_view(
                self@.setup,
                plain_expr(
                    NodeView::Conversion {
                        go_type: go_type@,
                        operand: Box::new(self@.expression.node),
                    },
                ),
                facts(
                    if self@.evaluation.stability is StableAcrossCalls {
                        Stability::StableAcrossCalls
                    } else {
                        Stability::Observable
                    },
                    self@.evaluation.effect,
                ),
            ),
    {
        let ValuePlan { setup, expression, evaluation } = self;
        let expression = GoExpression::conversion(go_type, expression);
        let stability = if evaluation.stability.is_stable_across_calls() {
            evaluation.stability
        } else {
            Stability::Observable
        };
        Self::from_facts(setup, expression, EvaluationFacts::new(stability, evaluation.effect))
    }

    /// `operator value`, which re-reads its operand.
    pub fn unary(self, operator: &str) -> (plan: Self)
        ensures
            plan@ == plan_view(
                self@.setup,
                ExprView {
                    node: NodeView::Unary {
                        operator: operator@,
                        operand: Box::new(self@.expression.node),
                    },
                    constant: unary_constant_kind(operator@, self@.expression.constant),
                },
                facts(Stability::Observable, self@.evaluation.effect),
            ),
    {
        let ValuePlan { setup, expression, evaluation } = self;
        let expression = GoExpression::unary(operator, expression);
        Self::from_facts(setup, expression, EvaluationFacts::new(Stability::Observable, evaluation.effect))
    }
}

} // verus!
