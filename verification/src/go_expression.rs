//! The Go expression tree behind `GoExpression`.

use crate::bodies::LoweredBlock;
use crate::render::function_body_string;
use crate::model::{ElementView, NodeView, opt_works, bound_text, rename_node, rename_element, rename_opt, bound_view, child_text, comma_text, element_text, inline_elements_text, multiline_elements_text, parameters_text, element_values_work, binary_level as spec_binary_level, conversion_text, conversion_type_needs_parens, first_or_space, free_slot, header_slot, slot_with};
use crate::text::same_text;
use vstd::string::StrSliceExecFns;
use vstd::string::StringExecFns;
use vstd::prelude::*;
use vstd::pervasive::VecAdditionalExecFns;

verus! {

#[derive(Debug, PartialEq, Eq)]
pub enum GoExpressionNode {
    Identifier(String),
    /// A name from another package, `qualifier.name`.
    Qualified { package: String, name: String },
    Literal(String),
    /// A Go type in operand position, such as the element type of `make`.
    Type(String),
    CompositeLiteral {
        /// `None` inside an enclosing literal that already names the element type.
        go_type: Option<String>,
        elements: Vec<CompositeElement>,
        layout: CompositeLayout,
    },
    Call { callee: Box<GoExpressionNode>, arguments: Vec<GoExpressionNode> },
    /// A generic function or type with its type arguments, `f[T, U]`.
    Instantiation {
        base: Box<GoExpressionNode>,
        /// Bracketed Go type list, `[T, U]`.
        type_arguments: String,
    },
    Selector { base: Box<GoExpressionNode>, field: String },
    Index { base: Box<GoExpressionNode>, index: Box<GoExpressionNode> },
    Slice {
        base: Box<GoExpressionNode>,
        low: Option<Box<GoExpressionNode>>,
        high: Option<Box<GoExpressionNode>>,
        max: Option<Box<GoExpressionNode>>,
    },
    TypeAssertion { base: Box<GoExpressionNode>, go_type: String },
    Unary { operator: String, operand: Box<GoExpressionNode> },
    AddressOf(Box<GoExpressionNode>),
    Dereference(Box<GoExpressionNode>),
    Binary { operator: String, left: Box<GoExpressionNode>, right: Box<GoExpressionNode> },
    Conversion { go_type: String, operand: Box<GoExpressionNode> },
    /// A variadic argument, `values...`.
    Spread(Box<GoExpressionNode>),
    FunctionLiteral {
        parameters: Vec<GoParameter>,
        result: String,
        body: LoweredBlock,
        layout: FunctionLiteralLayout,
    },
    Empty,
    /// Go source the program supplied verbatim.
    Verbatim(String),
}

/// One parameter of a function literal, `name type`.
#[derive(Debug, Clone, PartialEq, Eq)]
pub struct GoParameter {
    pub name: String,
    pub go_type: String,
}

#[derive(Debug, Clone, Copy, PartialEq, Eq, Structural)]
pub enum FunctionLiteralLayout {
    Inline,
    MultiLine,
}

#[derive(Debug, PartialEq, Eq)]
pub struct CompositeElement {
    pub key: Option<GoExpressionNode>,
    pub value: GoExpressionNode,
}

/// The whitespace forms match the text the string emitters produced, because
/// element widths feed the layout choice of an enclosing literal. `gofmt`
/// erases the difference in the output.
#[derive(Debug, Clone, Copy, PartialEq, Eq, Structural)]
pub enum CompositeLayout {
    /// `{ a, b }`, or `{a, b}` when not padded.
    Inline { padded: bool },
    /// One element per line, each behind a tab when indented.
    MultiLine { indented: bool },
}

/// Where a child expression is written, as its parent sees it.
#[derive(Debug, Clone, Copy, PartialEq, Eq, Structural)]
pub struct Slot {
    pub kind: SlotKind,
    /// Inside a statement header (`if`, `for`, `switch`), where a typed
    /// composite literal would read as the block's opening brace.
    pub header: bool,
}

#[derive(Debug, Clone, Copy, PartialEq, Eq, Structural)]
pub enum SlotKind {
    Free,
    Left(u8),
    Right(u8),
    Prefix(char),
    Callee,
    Postfix,
}

/// How tightly an expression's own syntax binds.
#[derive(Debug, Clone, Copy, PartialEq, Eq, Structural)]
pub enum Binding {
    Primary,
    Prefix(char),
    Binary(u8),
    Unknown,
}

} // verus!

verus! {

impl GoParameter {
    /// The parameter `name go_type`.
    pub fn new(name: &str, go_type: &str) -> (parameter: Self)
        ensures
            parameter.name@ == name@,
            parameter.go_type@ == go_type@,
    {
        GoParameter { name: name.to_owned(), go_type: go_type.to_owned() }
    }
}

impl CompositeLayout {
    /// One element per line once several wide elements would crowd one line.
    pub fn for_elements(count: usize, widest: usize) -> (layout: Self)
        ensures
            layout == (if count > 1 && widest > 30 {
                CompositeLayout::MultiLine { indented: true }
            } else {
                CompositeLayout::Inline { padded: true }
            }),
    {
        if count > 1 && widest > 30 {
            CompositeLayout::MultiLine { indented: true }
        } else {
            CompositeLayout::Inline { padded: true }
        }
    }
}

impl Slot {
    /// A slot where nothing around the expression constrains it.
    pub fn free() -> (slot: Slot)
        ensures
            slot == free_slot(),
    {
        Slot { kind: SlotKind::Free, header: false }
    }

    /// A free slot inside a statement header.
    pub fn header() -> (slot: Slot)
        ensures
            slot == header_slot(),
    {
        Slot { kind: SlotKind::Free, header: true }
    }

    pub fn with(self, kind: SlotKind) -> (slot: Slot)
        ensures
            slot == slot_with(self, kind),
    {
        Slot { kind, header: self.header }
    }
}

/// Go's binary precedence of `operator`: 5 binds tightest, 1 loosest.
pub fn binary_level(operator: &str) -> (level: u8)
    ensures
        level == spec_binary_level(operator@),
{
    if same_text(operator, "*") || same_text(operator, "/") || same_text(operator, "%")
        || same_text(operator, "<<") || same_text(operator, ">>") || same_text(operator, "&")
        || same_text(operator, "&^") {
        5
    } else if same_text(operator, "+") || same_text(operator, "-") || same_text(operator, "|")
        || same_text(operator, "^") {
        4
    } else if same_text(operator, "==") || same_text(operator, "!=") || same_text(operator, "<")
        || same_text(operator, "<=") || same_text(operator, ">") || same_text(operator, ">=") {
        3
    } else if same_text(operator, "&&") {
        2
    } else if same_text(operator, "||") {
        1
    } else {
        0
    }
}

fn first_char_or_space(text: &str) -> (c: char)
    ensures
        c == first_or_space(text@),
{
    if text.unicode_len() > 0 {
        text.get_char(0)
    } else {
        ' '
    }
}

fn conversion_needs_parens(go_type: &str) -> (r: bool)
    ensures
        r == conversion_type_needs_parens(go_type@),
{
    let n = go_type.unicode_len();
    if n == 0 {
        return false;
    }
    let first = go_type.get_char(0);
    if first == '*' || first == '<' {
        return true;
    }
    if n >= 4 {
        let prefix = go_type.substring_char(0, 4);
        proof {
            assert(prefix@ =~= go_type@.take(4));
        }
        same_text(prefix, "func")
    } else {
        false
    }
}

/// The conversion of `operand` to `go_type`, `T(x)`, with a type that starts
/// with `*`, `<-` or `func` in parentheses.
pub fn conversion_string(go_type: &str, operand: &str) -> (text: String)
    ensures
        text@ == conversion_text(go_type@, operand@),
{
    if conversion_needs_parens(go_type) {
        let mut text = "(".to_owned();
        text.append(go_type);
        text.append(")(");
        text.append(operand);
        text.append(")");
        text
    } else {
        let mut text = go_type.to_owned();
        text.append("(");
        text.append(operand);
        text.append(")");
        text
    }
}

} // verus!

verus! {

impl GoExpressionNode {
    /// The node holds a call or a type assertion. A function literal only
    /// defines code.
    pub fn does_work(&self) -> (r: bool)
        ensures
            r == self@.does_work(),
        decreases self,
    {
        match self {
            GoExpressionNode::Identifier(t) => {
                assert(self.view_node() == NodeView::Identifier(t@));
                assert(self@ == NodeView::Identifier(t@));
                assert(!NodeView::Identifier(t@).does_work());
                false
            },
            GoExpressionNode::Qualified { .. } => false,
            GoExpressionNode::Literal(_) => false,
            GoExpressionNode::Type(_) => false,
            GoExpressionNode::Empty => false,
            GoExpressionNode::Verbatim(_) => false,
            GoExpressionNode::FunctionLiteral { .. } => false,
            GoExpressionNode::Call { .. } | GoExpressionNode::TypeAssertion { .. } => true,
            GoExpressionNode::CompositeLiteral { go_type, elements, layout } => {
                let ghost ev = self@->CompositeLiteral_elements;
                let mut i: usize = 0;
                while i < elements.len()
                    invariant
                        *self == (GoExpressionNode::CompositeLiteral {
                            go_type: *go_type,
                            elements: *elements,
                            layout: *layout,
                        }),
                        ev == self@->CompositeLiteral_elements,
                        ev.len() == elements@.len(),
                        i <= elements@.len(),
                        !element_values_work(ev.take(i as int)),
                    decreases elements@.len() - i,
                {
                    proof {
                        assert(decreases_to!(*elements => elements[i as int]));
                        assert(decreases_to!(*self => self->CompositeLiteral_elements));
                        assert(decreases_to!(*self => elements[i as int]));
                        assert(decreases_to!(elements[i as int] => elements[i as int].value));
                        assert(ev.take(i + 1).drop_last() =~= ev.take(i as int));
                        assert(ev[i as int] == elements@[i as int]@);
                    }
                    if elements[i].value.does_work() {
                        proof {
                            assert(element_values_work(ev.take(i + 1)));
                            lemma_element_values_work_prefix(ev, i + 1);
                            assert(self@.does_work());
                        }
                        return true;
                    }
                    i = i + 1;
                }
                proof {
                    assert(ev.take(i as int) =~= ev);
                    assert(!self@.does_work());
                }
                false
            },
            GoExpressionNode::Instantiation { base, .. } => {
                let r = base.does_work();
                assert(r == self@.does_work());
                r
            },
            GoExpressionNode::Selector { base, .. } => {
                let r = base.does_work();
                assert(r == self@.does_work());
                r
            },
            GoExpressionNode::Index { base, index } => {
                let r = base.does_work() || index.does_work();
                assert(r == self@.does_work());
                r
            },
            GoExpressionNode::Slice { base, low, high, max } => {
                let low_works = match low {
                    Some(bound) => bound.does_work(),
                    None => false,
                };
                assert(low_works == opt_works(self@->Slice_low));
                let high_works = match high {
                    Some(bound) => bound.does_work(),
                    None => false,
                };
                assert(high_works == opt_works(self@->Slice_high));
                let max_works = match max {
                    Some(bound) => bound.does_work(),
                    None => false,
                };
                assert(max_works == opt_works(self@->Slice_max));
                let r = base.does_work() || low_works || high_works || max_works;
                assert(r == self@.does_work());
                r
            },
            GoExpressionNode::Unary { operand, .. } => {
                let r = operand.does_work();
                assert(r == self@.does_work());
                r
            },
            GoExpressionNode::Conversion { operand, .. } => {
                let r = operand.does_work();
                assert(r == self@.does_work());
                r
            },
            GoExpressionNode::AddressOf(operand) => {
                let r = operand.does_work();
                assert(r == self@.does_work());
                r
            },
            GoExpressionNode::Dereference(operand) => {
                let r = operand.does_work();
                assert(r == self@.does_work());
                r
            },
            GoExpressionNode::Spread(operand) => {
                let r = operand.does_work();
                assert(r == self@.does_work());
                r
            },
            GoExpressionNode::Binary { left, right, .. } => {
                let r = left.does_work() || right.does_work();
                assert(r == self@.does_work());
                r
            },
        }
    }

    pub fn binding(&self) -> (b: Binding)
        ensures
            b == self@.binding(),
    {
        match self {
            GoExpressionNode::Literal(text) => {
                if text.as_str().unicode_len() > 0 {
                    let first = text.as_str().get_char(0);
                    if first == '-' || first == '+' {
                        return Binding::Prefix(first);
                    }
                }
                Binding::Primary
            },
            GoExpressionNode::Unary { operator, .. } => Binding::Prefix(
                first_char_or_space(operator.as_str()),
            ),
            GoExpressionNode::AddressOf(_) => Binding::Prefix('&'),
            GoExpressionNode::Dereference(_) => Binding::Prefix('*'),
            GoExpressionNode::Binary { operator, .. } => Binding::Binary(
                binary_level(operator.as_str()),
            ),
            GoExpressionNode::Verbatim(_) => Binding::Unknown,
            _ => Binding::Primary,
        }
    }

    /// Whether the node needs parentheses when written into `slot`.
    pub fn needs_parens(&self, slot: Slot) -> (r: bool)
        ensures
            r == self@.needs_parens(slot),
    {
        if slot.header {
            if let GoExpressionNode::CompositeLiteral { go_type: Some(_), .. } = self {
                return true;
            }
        }
        match (self.binding(), slot.kind) {
            (Binding::Unknown, SlotKind::Free) => false,
            (Binding::Unknown, _) => true,
            (Binding::Primary, SlotKind::Postfix) => {
                match self {
                    GoExpressionNode::Literal(_) | GoExpressionNode::FunctionLiteral { .. } => true,
                    _ => false,
                }
            },
            (Binding::Primary, _) => false,
            (Binding::Prefix(sign), SlotKind::Prefix(operator)) => sign == operator && (sign == '-'
                || sign == '+' || sign == '&'),
            (Binding::Prefix(_), SlotKind::Callee) => true,
            (Binding::Prefix(_), SlotKind::Postfix) => true,
            (Binding::Prefix(_), _) => false,
            (Binding::Binary(level), SlotKind::Left(parent)) => level < parent,
            (Binding::Binary(level), SlotKind::Right(parent)) => level <= parent,
            (Binding::Binary(_), SlotKind::Free) => false,
            (Binding::Binary(_), _) => true,
        }
    }
}

pub proof fn lemma_element_values_work_prefix(ev: Seq<ElementView>, n: int)
    requires
        0 <= n <= ev.len(),
        element_values_work(ev.take(n)),
    ensures
        element_values_work(ev),
    decreases ev.len() - n,
{
    if n < ev.len() {
        assert(ev.take(n + 1).drop_last() =~= ev.take(n));
        lemma_element_values_work_prefix(ev, n + 1);
    } else {
        assert(ev.take(n) =~= ev);
    }
}

} // verus!


verus! {

fn optional_text(text: &Option<String>) -> (t: String)
    ensures
        t@ == (match text {
            Some(t) => t@,
            None => Seq::<char>::empty(),
        }),
{
    match text {
        Some(text) => text.as_str().to_owned(),
        None => String::new(),
    }
}

impl GoExpressionNode {
    /// The Go text of the expression.
    pub fn print(&self) -> (text: String)
        ensures
            text@ == self@.text(free_slot()),
    {
        self.text_in(Slot::free())
    }

    /// The Go text of the expression inside a statement header, where a typed
    /// composite literal takes parentheses.
    pub fn print_header(&self) -> (text: String)
        ensures
            text@ == self@.text(header_slot()),
    {
        self.text_in(Slot::header())
    }

    /// Appends the Go text of the expression, written into `slot`.
    pub fn write(&self, output: &mut String, slot: Slot)
        ensures
            final(output)@ == old(output)@ + self@.text(slot),
    {
        let text = self.text_in(slot);
        output.append(text.as_str());
    }

    /// Appends a child where its parent puts it, parenthesized where needed.
    pub fn write_child(child: &Self, slot: Slot, output: &mut String)
        ensures
            final(output)@ == old(output)@ + child_text(child@, slot),
    {
        let text = Self::child_text_in(child, slot);
        output.append(text.as_str());
    }

    fn child_text_in(child: &Self, slot: Slot) -> (text: String)
        ensures
            text@ == child_text(child@, slot),
        decreases child, 1nat,
    {
        if child.needs_parens(slot) {
            let mut text = "(".to_owned();
            let inner = child.text_in(Slot::free());
            text.append(inner.as_str());
            text.append(")");
            text
        } else {
            child.text_in(slot)
        }
    }

    /// The Go text of the expression written into `slot`.
    pub fn text_in(&self, slot: Slot) -> (text: String)
        ensures
            text@ == self@.text(slot),
        decreases self, 0nat,
    {
        match self {
            GoExpressionNode::Identifier(t) => {
                assert(self@ == NodeView::Identifier(t@));
                t.as_str().to_owned()
            },
            GoExpressionNode::Literal(t) => {
                assert(self@ == NodeView::Literal(t@));
                t.as_str().to_owned()
            },
            GoExpressionNode::Type(t) => {
                assert(self@ == NodeView::Type(t@));
                t.as_str().to_owned()
            },
            GoExpressionNode::Verbatim(t) => {
                assert(self@ == NodeView::Verbatim(t@));
                t.as_str().to_owned()
            },
            GoExpressionNode::Qualified { package, name } => {
                let mut text = package.as_str().to_owned();
                text.append(".");
                text.append(name.as_str());
                text
            },
            GoExpressionNode::Empty => String::new(),
            GoExpressionNode::CompositeLiteral { go_type, elements, layout } => {
                let ghost ev = self@->CompositeLiteral_elements;
                let mut text = optional_text(go_type);
                let body = if elements.len() == 0 {
                    "{}".to_owned()
                } else {
                    match layout {
                        CompositeLayout::Inline { padded } => {
                            let padding = if *padded {
                                " ".to_owned()
                            } else {
                                String::new()
                            };
                            let mut listed = String::new();
                            let mut i: usize = 0;
                            while i < elements.len()
                                invariant
                                    *self == (GoExpressionNode::CompositeLiteral {
                                        go_type: *go_type,
                                        elements: *elements,
                                        layout: *layout,
                                    }),
                                    ev == self@->CompositeLiteral_elements,
                                    ev.len() == elements@.len(),
                                    i <= elements@.len(),
                                    listed@ == inline_elements_text(ev.take(i as int)),
                                decreases elements@.len() - i,
                            {
                                proof {
                                    assert(decreases_to!(*elements => elements[i as int]));
                                    assert(decreases_to!(*self => self->CompositeLiteral_elements));
                                    assert(decreases_to!(*self => elements[i as int]));
                                    assert(ev.take(i + 1).drop_last() =~= ev.take(i as int));
                                    assert(ev[i as int] == elements@[i as int]@);
                                    assert(ev.take(i + 1).last() == ev[i as int]);
                                }
                                let element = elements[i].text();
                                if i == 0 {
                                    listed = element;
                                } else {
                                    listed.append(", ");
                                    listed.append(element.as_str());
                                }
                                i = i + 1;
                            }
                            proof {
                                assert(ev.take(i as int) =~= ev);
                            }
                            let mut body = "{".to_owned();
                            body.append(padding.as_str());
                            body.append(listed.as_str());
                            body.append(padding.as_str());
                            body.append("}");
                            body
                        },
                        CompositeLayout::MultiLine { indented } => {
                            let mut listed = String::new();
                            let mut i: usize = 0;
                            while i < elements.len()
                                invariant
                                    *self == (GoExpressionNode::CompositeLiteral {
                                        go_type: *go_type,
                                        elements: *elements,
                                        layout: *layout,
                                    }),
                                    ev == self@->CompositeLiteral_elements,
                                    ev.len() == elements@.len(),
                                    i <= elements@.len(),
                                    listed@ == multiline_elements_text(ev.take(i as int), *indented),
                                decreases elements@.len() - i,
                            {
                                proof {
                                    assert(decreases_to!(*elements => elements[i as int]));
                                    assert(decreases_to!(*self => self->CompositeLiteral_elements));
                                    assert(decreases_to!(*self => elements[i as int]));
                                    assert(ev.take(i + 1).drop_last() =~= ev.take(i as int));
                                    assert(ev[i as int] == elements@[i as int]@);
                                    assert(ev.take(i + 1).last() == ev[i as int]);
                                }
                                let tab = if *indented {
                                    "\t".to_owned()
                                } else {
                                    String::new()
                                };
                                let element = elements[i].text();
                                listed.append(tab.as_str());
                                listed.append(element.as_str());
                                listed.append(",\n");
                                i = i + 1;
                            }
                            proof {
                                assert(ev.take(i as int) =~= ev);
                            }
                            let mut body = "{\n".to_owned();
                            body.append(listed.as_str());
                            body.append("}");
                            body
                        },
                    }
                };
                text.append(body.as_str());
                text
            },
            GoExpressionNode::Call { callee, arguments } => {
                let mut text = Self::child_text_in(callee, slot.with(SlotKind::Callee));
                let ghost av = self@->Call_arguments;
                let mut listed = String::new();
                let mut i: usize = 0;
                while i < arguments.len()
                    invariant
                        *self == (GoExpressionNode::Call { callee: *callee, arguments: *arguments }),
                        av == self@->Call_arguments,
                        av.len() == arguments@.len(),
                        i <= arguments@.len(),
                        listed@ == comma_text(av.take(i as int)),
                    decreases arguments@.len() - i,
                {
                    proof {
                        assert(decreases_to!(*arguments => arguments[i as int]));
                        assert(decreases_to!(*self => self->Call_arguments));
                        assert(decreases_to!(*self => arguments[i as int]));
                        assert(av.take(i + 1).drop_last() =~= av.take(i as int));
                        assert(av[i as int] == arguments@[i as int]@);
                        assert(av.take(i + 1).last() == av[i as int]);
                    }
                    let argument = arguments[i].text_in(Slot::free());
                    if i == 0 {
                        listed = argument;
                    } else {
                        listed.append(", ");
                        listed.append(argument.as_str());
                    }
                    i = i + 1;
                }
                proof {
                    assert(av.take(i as int) =~= av);
                }
                text.append("(");
                text.append(listed.as_str());
                text.append(")");
                text
            },
            GoExpressionNode::Instantiation { base, type_arguments } => {
                let mut text = Self::child_text_in(base, slot.with(SlotKind::Postfix));
                text.append(type_arguments.as_str());
                text
            },
            GoExpressionNode::Selector { base, field } => {
                let mut text = Self::child_text_in(base, slot.with(SlotKind::Postfix));
                text.append(".");
                text.append(field.as_str());
                text
            },
            GoExpressionNode::Index { base, index } => {
                let mut text = Self::child_text_in(base, slot.with(SlotKind::Postfix));
                let inner = index.text_in(Slot::free());
                text.append("[");
                text.append(inner.as_str());
                text.append("]");
                text
            },
            GoExpressionNode::Slice { base, low, high, max } => {
                let mut text = Self::child_text_in(base, slot.with(SlotKind::Postfix));
                let low_text = match low {
                    Some(bound) => bound.text_in(Slot::free()),
                    None => String::new(),
                };
                let high_text = match high {
                    Some(bound) => bound.text_in(Slot::free()),
                    None => String::new(),
                };
                let max_text = match max {
                    Some(bound) => {
                        let mut t = ":".to_owned();
                        let inner = bound.text_in(Slot::free());
                        t.append(inner.as_str());
                        t
                    },
                    None => String::new(),
                };
                assert(low_text@ == bound_text(self@->Slice_low));
                assert(high_text@ == bound_text(self@->Slice_high));
                assert(max_text@ == match self@->Slice_max {
                    Some(m) => ":"@ + m.text(free_slot()),
                    None => Seq::empty(),
                });
                text.append("[");
                text.append(low_text.as_str());
                text.append(":");
                text.append(high_text.as_str());
                text.append(max_text.as_str());
                text.append("]");
                text
            },
            GoExpressionNode::TypeAssertion { base, go_type } => {
                let mut text = Self::child_text_in(base, slot.with(SlotKind::Postfix));
                text.append(".(");
                text.append(go_type.as_str());
                text.append(")");
                text
            },
            GoExpressionNode::Unary { operator, operand } => {
                let sign = first_char_or_space(operator.as_str());
                let inner = Self::child_text_in(operand, slot.with(SlotKind::Prefix(sign)));
                let mut text = operator.as_str().to_owned();
                text.append(inner.as_str());
                text
            },
            GoExpressionNode::AddressOf(operand) => {
                let inner = Self::child_text_in(operand, slot.with(SlotKind::Prefix('&')));
                let mut text = "&".to_owned();
                text.append(inner.as_str());
                text
            },
            GoExpressionNode::Dereference(operand) => {
                let inner = Self::child_text_in(operand, slot.with(SlotKind::Prefix('*')));
                let mut text = "*".to_owned();
                text.append(inner.as_str());
                text
            },
            GoExpressionNode::Binary { operator, left, right } => {
                let level = binary_level(operator.as_str());
                let mut text = Self::child_text_in(left, slot.with(SlotKind::Left(level)));
                let right_text = Self::child_text_in(right, slot.with(SlotKind::Right(level)));
                text.append(" ");
                text.append(operator.as_str());
                text.append(" ");
                text.append(right_text.as_str());
                text
            },
            GoExpressionNode::Conversion { go_type, operand } => {
                let operand_text = operand.text_in(Slot::free());
                conversion_string(go_type.as_str(), operand_text.as_str())
            },
            GoExpressionNode::Spread(operand) => {
                let mut text = Self::child_text_in(operand, slot.with(SlotKind::Postfix));
                text.append("...");
                text
            },
            GoExpressionNode::FunctionLiteral { parameters, result, body, layout } => {
                let ghost pv = self@->FunctionLiteral_parameters;
                let mut listed = String::new();
                let mut i: usize = 0;
                while i < parameters.len()
                    invariant
                        pv == self@->FunctionLiteral_parameters,
                        *self == (GoExpressionNode::FunctionLiteral {
                            parameters: *parameters,
                            result: *result,
                            body: *body,
                            layout: *layout,
                        }),
                        pv.len() == parameters@.len(),
                        i <= parameters@.len(),
                        listed@ == parameters_text(pv.take(i as int)),
                    decreases parameters@.len() - i,
                {
                    proof {
                        assert(pv.take(i + 1).drop_last() =~= pv.take(i as int));
                        assert(pv.take(i + 1).last() == pv[i as int]);
                    }
                    if i == 0 {
                        listed = parameters[i].name.as_str().to_owned();
                    } else {
                        listed.append(", ");
                        listed.append(parameters[i].name.as_str());
                    }
                    listed.append(" ");
                    listed.append(parameters[i].go_type.as_str());
                    i = i + 1;
                }
                proof {
                    assert(pv.take(i as int) =~= pv);
                }
                let result_text = if result.as_str().unicode_len() > 0 {
                    let mut t = " ".to_owned();
                    t.append(result.as_str());
                    t
                } else {
                    String::new()
                };
                proof {
                    assert(decreases_to!(*self => self->FunctionLiteral_body));
                }
                let body_text = function_body_string(body, *layout);
                let mut text = "func(".to_owned();
                text.append(listed.as_str());
                text.append(")");
                text.append(result_text.as_str());
                text.append(" {");
                text.append(body_text.as_str());
                text
            },
        }
    }
}

impl CompositeElement {
    /// `key: value`, or the value alone.
    pub fn text(&self) -> (text: String)
        ensures
            text@ == element_text(self@),
        decreases self, 0nat,
    {
        match &self.key {
            Some(key) => {
                let mut text = key.text_in(Slot::free());
                let value = self.value.text_in(Slot::free());
                text.append(": ");
                text.append(value.as_str());
                text
            },
            None => self.value.text_in(Slot::free()),
        }
    }

    /// Appends `key: value`, or the value alone.
    pub fn write(&self, output: &mut String)
        ensures
            final(output)@ == old(output)@ + element_text(self@),
    {
        let text = self.text();
        output.append(text.as_str());
    }
}

} // verus!

verus! {

impl GoExpressionNode {
    /// Renames every identifier `from` to `to`, outside function literals.
    pub fn rename_identifier(&mut self, from: &str, to: &str)
        ensures
            final(self)@ == rename_node(old(self)@, from@, to@),
        decreases *old(self), 1nat,
    {
        let mut node = GoExpressionNode::Empty;
        std::mem::swap(self, &mut node);
        *self = node.renamed(from, to);
    }

    fn renamed_bound(bound: Option<Box<GoExpressionNode>>, from: &str, to: &str) -> (r: Option<
        Box<GoExpressionNode>,
    >)
        ensures
            bound_view(&r) == rename_opt(bound_view(&bound), from@, to@),
        decreases bound, 0nat,
    {
        match bound {
            Some(b) => Some(Box::new((*b).renamed(from, to))),
            None => None,
        }
    }

    /// The node with every identifier `from` outside function literals
    /// renamed to `to`.
    #[verifier::loop_isolation(false)]
    pub fn renamed(self, from: &str, to: &str) -> (r: Self)
        ensures
            r@ == rename_node(self@, from@, to@),
        decreases self, 0nat,
    {
        let ghost whole = self;
        match self {
            GoExpressionNode::Identifier(name) => {
                if same_text(name.as_str(), from) {
                    GoExpressionNode::Identifier(to.to_owned())
                } else {
                    GoExpressionNode::Identifier(name)
                }
            },
            GoExpressionNode::CompositeLiteral { go_type, elements, layout } => {
                let ghost before = elements;
                let mut elements = elements;
                let mut i: usize = 0;
                while i < elements.len()
                    invariant
                        whole == (GoExpressionNode::CompositeLiteral { go_type, elements: before, layout }),
                        elements@.len() == before@.len(),
                        i <= elements@.len(),
                        forall|j: int| 0 <= j < i ==> #[trigger] elements@[j]@ == rename_element(before@[j]@, from@, to@),
                        forall|j: int| i <= j < elements@.len() ==> #[trigger] elements@[j] == before@[j],
                    decreases elements@.len() - i,
                {
                    proof {
                        assert(decreases_to!(whole => whole->CompositeLiteral_elements));
                        assert(decreases_to!(before => before[i as int]));
                        assert(decreases_to!(whole => before[i as int]));
                        assert(elements@[i as int] == before@[i as int]);
                    }
                    let mut item = CompositeElement { key: None, value: GoExpressionNode::Empty };
                    elements.set_and_swap(i, &mut item);
                    assert(decreases_to!(whole => item));
                    let mut item = item.renamed(from, to);
                    elements.set_and_swap(i, &mut item);
                    i = i + 1;
                }
                let r = GoExpressionNode::CompositeLiteral { go_type, elements, layout };
                proof {
                    let renamed = rename_node(whole@, from@, to@);
                    assert(renamed->CompositeLiteral_elements.len() == elements@.len());
                    assert forall|j: int| 0 <= j < elements@.len() implies #[trigger] r@->CompositeLiteral_elements[j]
                        == renamed->CompositeLiteral_elements[j] by {
                        assert(r@->CompositeLiteral_elements[j] == elements@[j]@);
                        assert(whole@->CompositeLiteral_elements[j] == before@[j]@);
                        assert(renamed->CompositeLiteral_elements[j] == rename_element(
                            whole@->CompositeLiteral_elements[j], from@, to@));
                    }
                    assert(r@->CompositeLiteral_elements =~= renamed->CompositeLiteral_elements);
                }
                r
            },
            GoExpressionNode::Call { callee, arguments } => {
                let callee = Box::new((*callee).renamed(from, to));
                let ghost before = arguments;
                let mut arguments = arguments;
                let mut i: usize = 0;
                while i < arguments.len()
                    invariant
                        whole == (GoExpressionNode::Call { callee: whole->Call_callee, arguments: before }),
                        arguments@.len() == before@.len(),
                        i <= arguments@.len(),
                        forall|j: int| 0 <= j < i ==> #[trigger] arguments@[j]@ == rename_node(before@[j]@, from@, to@),
                        forall|j: int| i <= j < arguments@.len() ==> #[trigger] arguments@[j] == before@[j],
                    decreases arguments@.len() - i,
                {
                    proof {
                        assert(decreases_to!(whole => whole->Call_arguments));
                        assert(decreases_to!(before => before[i as int]));
                        assert(decreases_to!(whole => before[i as int]));
                        assert(arguments@[i as int] == before@[i as int]);
                    }
                    let mut item = GoExpressionNode::Empty;
                    arguments.set_and_swap(i, &mut item);
                    assert(decreases_to!(whole => item));
                    let mut item = item.renamed(from, to);
                    arguments.set_and_swap(i, &mut item);
                    i = i + 1;
                }
                let r = GoExpressionNode::Call { callee, arguments };
                proof {
                    let renamed = rename_node(whole@, from@, to@);
                    assert(renamed->Call_arguments.len() == arguments@.len());
                    assert forall|j: int| 0 <= j < arguments@.len() implies #[trigger] r@->Call_arguments[j]
                        == renamed->Call_arguments[j] by {
                        assert(r@->Call_arguments[j] == arguments@[j]@);
                        assert(whole@->Call_arguments[j] == before@[j]@);
                        assert(renamed->Call_arguments[j] == rename_node(whole@->Call_arguments[j], from@, to@));
                    }
                    assert(r@->Call_arguments =~= renamed->Call_arguments);
                }
                r
            },
            GoExpressionNode::Instantiation { base, type_arguments } => GoExpressionNode::Instantiation {
                base: Box::new((*base).renamed(from, to)),
                type_arguments,
            },
            GoExpressionNode::Selector { base, field } => GoExpressionNode::Selector {
                base: Box::new((*base).renamed(from, to)),
                field,
            },
            GoExpressionNode::Index { base, index } => GoExpressionNode::Index {
                base: Box::new((*base).renamed(from, to)),
                index: Box::new((*index).renamed(from, to)),
            },
            GoExpressionNode::Slice { base, low, high, max } => GoExpressionNode::Slice {
                base: Box::new((*base).renamed(from, to)),
                low: Self::renamed_bound(low, from, to),
                high: Self::renamed_bound(high, from, to),
                max: Self::renamed_bound(max, from, to),
            },
            GoExpressionNode::TypeAssertion { base, go_type } => GoExpressionNode::TypeAssertion {
                base: Box::new((*base).renamed(from, to)),
                go_type,
            },
            GoExpressionNode::Unary { operator, operand } => GoExpressionNode::Unary {
                operator,
                operand: Box::new((*operand).renamed(from, to)),
            },
            GoExpressionNode::AddressOf(operand) => GoExpressionNode::AddressOf(
                Box::new((*operand).renamed(from, to)),
            ),
            GoExpressionNode::Dereference(operand) => GoExpressionNode::Dereference(
                Box::new((*operand).renamed(from, to)),
            ),
            GoExpressionNode::Binary { operator, left, right } => GoExpressionNode::Binary {
                operator,
                left: Box::new((*left).renamed(from, to)),
                right: Box::new((*right).renamed(from, to)),
            },
            GoExpressionNode::Conversion { go_type, operand } => GoExpressionNode::Conversion {
                go_type,
                operand: Box::new((*operand).renamed(from, to)),
            },
            GoExpressionNode::Spread(operand) => GoExpressionNode::Spread(
                Box::new((*operand).renamed(from, to)),
            ),
            other => other,
        }
    }
}

impl CompositeElement {
    pub fn renamed(self, from: &str, to: &str) -> (r: Self)
        ensures
            r@ == rename_element(self@, from@, to@),
        decreases self, 0nat,
    {
        let key = match self.key {
            Some(key) => Some(key.renamed(from, to)),
            None => None,
        };
        CompositeElement { key, value: self.value.renamed(from, to) }
    }
}

} // verus!
