use emit::go_expression::{CompositeElement, CompositeLayout, GoExpressionNode};

fn name(text: &str) -> GoExpressionNode {
    GoExpressionNode::Identifier(text.to_string())
}

fn binary(left: GoExpressionNode, operator: &str, right: GoExpressionNode) -> GoExpressionNode {
    GoExpressionNode::Binary {
        operator: operator.to_string(),
        left: Box::new(left),
        right: Box::new(right),
    }
}

fn literal_struct(go_type: &str) -> GoExpressionNode {
    GoExpressionNode::CompositeLiteral {
        go_type: Some(go_type.to_string()),
        elements: Vec::new(),
        layout: CompositeLayout::Inline { padded: true },
    }
}

fn negate(operand: GoExpressionNode) -> GoExpressionNode {
    GoExpressionNode::Unary { operator: "-".to_string(), operand: Box::new(operand) }
}

fn not(operand: GoExpressionNode) -> GoExpressionNode {
    GoExpressionNode::Unary { operator: "!".to_string(), operand: Box::new(operand) }
}

#[test]
fn looser_operand_takes_parentheses() {
    let shifted = binary(binary(name("a"), "+", name("b")), "<<", name("c"));
    assert_eq!(shifted.print(), "(a + b) << c");
    let sum = binary(binary(name("a"), "*", name("b")), "+", name("c"));
    assert_eq!(sum.print(), "a * b + c");
}

#[test]
fn equal_operand_on_the_right_takes_parentheses() {
    let nested = binary(name("a"), "-", binary(name("b"), "-", name("c")));
    assert_eq!(nested.print(), "a - (b - c)");
    let flat = binary(binary(name("a"), "-", name("b")), "-", name("c"));
    assert_eq!(flat.print(), "a - b - c");
}

#[test]
fn repeated_sign_takes_parentheses() {
    assert_eq!(negate(negate(name("x"))).print(), "-(-x)");
    assert_eq!(negate(GoExpressionNode::Literal("-1".to_string())).print(), "-(-1)");
    assert_eq!(not(not(name("x"))).print(), "!!x");
}

#[test]
fn postfix_on_prefix_takes_parentheses() {
    let field = GoExpressionNode::Selector {
        base: Box::new(GoExpressionNode::Dereference(Box::new(name("node")))),
        field: "Child".to_string(),
    };
    assert_eq!(field.print(), "(*node).Child");
    let call = GoExpressionNode::Call {
        callee: Box::new(GoExpressionNode::Dereference(Box::new(name("f")))),
        arguments: vec![name("x")],
    };
    assert_eq!(call.print(), "(*f)(x)");
}

#[test]
fn composite_literal_takes_parentheses_in_a_header() {
    let compared = binary(name("x"), "==", literal_struct("Point"));
    assert_eq!(compared.print(), "x == Point{}");
    assert_eq!(compared.print_header(), "x == (Point{})");
    let called = GoExpressionNode::Call {
        callee: Box::new(name("f")),
        arguments: vec![literal_struct("Point")],
    };
    assert_eq!(called.print_header(), "f(Point{})");
}

#[test]
fn work_is_a_call_or_assertion_reachable_outside_keys_and_bodies() {

    let call = GoExpressionNode::Call { callee: Box::new(name("load")), arguments: Vec::new() };
    let indexed = GoExpressionNode::Index { base: Box::new(name("xs")), index: Box::new(call) };
    assert!(indexed.does_work());
    assert!(!binary(name("a"), "+", name("b")).does_work());

    let keyed_by_call = GoExpressionNode::CompositeLiteral {
        go_type: Some("map[int]int".to_string()),
        elements: vec![CompositeElement {
            key: Some(GoExpressionNode::Call { callee: Box::new(name("key")), arguments: Vec::new() }),
            value: name("v"),
        }],
        layout: CompositeLayout::Inline { padded: false },
    };
    assert!(!keyed_by_call.does_work());
    let asserted = GoExpressionNode::TypeAssertion { base: Box::new(name("x")), go_type: "int".to_string() };
    assert!(negate(asserted).does_work());
}
