use emit::constant_fold::{fold_binary, fold_unary, shift_amount, FoldOperator, FoldUnary};

#[test]
fn arithmetic_folds_unless_it_overflows() {
    assert_eq!(fold_binary(FoldOperator::Addition, 2, 3), Some(5));
    assert_eq!(fold_binary(FoldOperator::Addition, i128::MAX, 1), None);
    assert_eq!(fold_binary(FoldOperator::Subtraction, i128::MIN, 1), None);
    assert_eq!(fold_binary(FoldOperator::Multiplication, 1 << 100, 1 << 30), None);
    assert_eq!(fold_binary(FoldOperator::Division, -7, 2), Some(-3));
    assert_eq!(fold_binary(FoldOperator::Division, 7, 0), None);
    assert_eq!(fold_binary(FoldOperator::Remainder, -7, 2), Some(-1));
    assert_eq!(fold_binary(FoldOperator::Remainder, i128::MIN, -1), None);
    assert_eq!(fold_binary(FoldOperator::Other, 1, 1), None);
}

#[test]
fn bitwise_operations_fold() {
    assert_eq!(fold_binary(FoldOperator::BitwiseAnd, 0b1100, 0b1010), Some(0b1000));
    assert_eq!(fold_binary(FoldOperator::BitwiseOr, 0b1100, 0b1010), Some(0b1110));
    assert_eq!(fold_binary(FoldOperator::BitwiseXor, 0b1100, 0b1010), Some(0b0110));
    assert_eq!(fold_binary(FoldOperator::BitwiseAndNot, 0b1100, 0b1010), Some(0b0100));
    assert_eq!(fold_unary(FoldUnary::BitwiseNot, 0), Some(-1));
    assert_eq!(fold_unary(FoldUnary::Negative, 5), Some(-5));
    assert_eq!(fold_unary(FoldUnary::Negative, i128::MIN), None);
    assert_eq!(fold_unary(FoldUnary::Other, 5), None);
}

#[test]
fn shifts_fold_only_without_losing_bits() {
    assert_eq!(fold_binary(FoldOperator::ShiftLeft, 1, 126), Some(1 << 126));
    assert_eq!(fold_binary(FoldOperator::ShiftLeft, 1, 127), None);
    assert_eq!(fold_binary(FoldOperator::ShiftLeft, -1, 127), Some(i128::MIN));
    assert_eq!(fold_binary(FoldOperator::ShiftLeft, 1, 128), None);
    assert_eq!(fold_binary(FoldOperator::ShiftRight, -8, 1), Some(-4));
    assert_eq!(fold_binary(FoldOperator::ShiftRight, 8, -1), None);
    assert_eq!(shift_amount(127), Some(127));
    assert_eq!(shift_amount(-1), None);
}
