//! Folding integer constants the way the cast-overflow check does: in
//! `i128`, giving up on any step that overflows, divides by zero or shifts
//! bits away.

use vstd::prelude::*;

verus! {

/// The binary operators the folding knows.
#[derive(Debug, Clone, Copy, PartialEq, Eq, Structural)]
pub enum FoldOperator {
    Addition,
    Subtraction,
    Multiplication,
    Division,
    Remainder,
    BitwiseAnd,
    BitwiseOr,
    BitwiseXor,
    BitwiseAndNot,
    ShiftLeft,
    ShiftRight,
    /// Any operator that does not fold.
    Other,
}

/// The unary operators the folding knows.
#[derive(Debug, Clone, Copy, PartialEq, Eq, Structural)]
pub enum FoldUnary {
    Negative,
    BitwiseNot,
    /// Any operator that does not fold.
    Other,
}

/// A shift amount, if it lies in `0..128`.
pub open spec fn shift_amount_of(amount: i128) -> Option<u32> {
    if 0 <= amount < 128 {
        Some(amount as u32)
    } else {
        None
    }
}

/// The value of `operator` applied to two folded operands.
pub open spec fn folded_binary(operator: FoldOperator, left: i128, right: i128) -> Option<i128> {
    match operator {
        FoldOperator::Addition => left.checked_add(right),
        FoldOperator::Subtraction => left.checked_sub(right),
        FoldOperator::Multiplication => left.checked_mul(right),
        FoldOperator::Division => left.checked_div(right),
        FoldOperator::Remainder => left.checked_rem(right),
        FoldOperator::BitwiseAnd => Some(left & right),
        FoldOperator::BitwiseOr => Some(left | right),
        FoldOperator::BitwiseXor => Some(left ^ right),
        FoldOperator::BitwiseAndNot => Some(left & !right),
        FoldOperator::ShiftLeft => match shift_amount_of(right) {
            Some(amount) => if (left << amount) >> amount == left {
                Some(left << amount)
            } else {
                None
            },
            None => None,
        },
        FoldOperator::ShiftRight => match shift_amount_of(right) {
            Some(amount) => Some(left >> amount),
            None => None,
        },
        FoldOperator::Other => None,
    }
}

/// The value of `operator` applied to a folded operand.
pub open spec fn folded_unary(operator: FoldUnary, value: i128) -> Option<i128> {
    match operator {
        FoldUnary::Negative => if value == i128::MIN {
            None
        } else {
            Some((-value) as i128)
        },
        FoldUnary::BitwiseNot => Some(!value),
        FoldUnary::Other => None,
    }
}

/// A shift amount, if it lies in `0..128`.
pub fn shift_amount(amount: i128) -> (shift: Option<u32>)
    ensures
        shift == shift_amount_of(amount),
{
    if 0 <= amount && amount < 128 {
        Some(amount as u32)
    } else {
        None
    }
}

/// Folds a binary operation on two constants.
pub fn fold_binary(operator: FoldOperator, left: i128, right: i128) -> (value: Option<i128>)
    ensures
        value == folded_binary(operator, left, right),
{
    match operator {
        FoldOperator::Addition => left.checked_add(right),
        FoldOperator::Subtraction => left.checked_sub(right),
        FoldOperator::Multiplication => left.checked_mul(right),
        FoldOperator::Division => left.checked_div(right),
        FoldOperator::Remainder => left.checked_rem(right),
        FoldOperator::BitwiseAnd => Some(left & right),
        FoldOperator::BitwiseOr => Some(left | right),
        FoldOperator::BitwiseXor => Some(left ^ right),
        FoldOperator::BitwiseAndNot => Some(left & !right),
        FoldOperator::ShiftLeft => match shift_amount(right) {
            Some(amount) => {
                let shifted = left << amount;
                if shifted >> amount == left {
                    Some(shifted)
                } else {
                    None
                }
            },
            None => None,
        },
        FoldOperator::ShiftRight => match shift_amount(right) {
            Some(amount) => Some(left >> amount),
            None => None,
        },
        FoldOperator::Other => None,
    }
}

/// Folds a unary operation on a constant.
pub fn fold_unary(operator: FoldUnary, value: i128) -> (folded: Option<i128>)
    ensures
        folded == folded_unary(operator, value),
{
    match operator {
        FoldUnary::Negative => if value == i128::MIN {
            None
        } else {
            Some(-value)
        },
        FoldUnary::BitwiseNot => Some(!value),
        FoldUnary::Other => None,
    }
}

/// Folding an addition, subtraction or multiplication gives the exact
/// integer value `left + right`, `left - right` or `left * right`, and gives
/// up exactly when that value does not fit in `i128`. An operator that does
/// not fold never gives a value, and neither does a shift by an amount
/// outside `0..128`.
pub proof fn law_folding_computes_the_integer_value(left: i128, right: i128)
    ensures
        folded_binary(FoldOperator::Addition, left, right) == if i128::MIN <= left + right <= i128::MAX {
            Some((left + right) as i128)
        } else {
            None
        },
        folded_binary(FoldOperator::Subtraction, left, right) == if i128::MIN <= left - right <= i128::MAX {
            Some((left - right) as i128)
        } else {
            None
        },
        folded_binary(FoldOperator::Multiplication, left, right) == if i128::MIN <= left * right <= i128::MAX {
            Some((left * right) as i128)
        } else {
            None
        },
        folded_binary(FoldOperator::Other, left, right) is None,
        !(0 <= right < 128) ==> folded_binary(FoldOperator::ShiftLeft, left, right) is None,
        !(0 <= right < 128) ==> folded_binary(FoldOperator::ShiftRight, left, right) is None,
        folded_unary(FoldUnary::Negative, left) == if i128::MIN <= -left <= i128::MAX {
            Some((-left) as i128)
        } else {
            None
        },
        folded_unary(FoldUnary::Other, left) is None,
{
}

proof fn lemma_positive_division(a: int, b: int)
    requires
        0 <= a,
        0 < b,
    ensures
        a == (a / b) * b + a % b,
        0 <= a % b < b,
        0 <= a / b <= a,
        b > 1 && a > 0 ==> a / b < a,
{
    vstd::arithmetic::div_mod::lemma_fundamental_div_mod(a, b);
    vstd::arithmetic::div_mod::lemma_mod_pos_bound(a, b);
    vstd::arithmetic::div_mod::lemma_div_nonincreasing(a, b);
    vstd::arithmetic::div_mod::lemma_div_pos_is_pos(a, b);
    if b > 1 && a > 0 {
        vstd::arithmetic::div_mod::lemma_div_decreases(a, b);
    }
    assert((a / b) * b == b * (a / b)) by (nonlinear_arith);
}

/// The bitwise operators always fold, to Go's `&`, `|`, `^` and `&^`
/// (`left` with the bits of `right` cleared); a right shift by an amount in
/// `0..128` folds to the arithmetic shift.
pub proof fn law_bitwise_folding(left: i128, right: i128)
    ensures
        folded_binary(FoldOperator::BitwiseAnd, left, right) == Some(left & right),
        folded_binary(FoldOperator::BitwiseOr, left, right) == Some(left | right),
        folded_binary(FoldOperator::BitwiseXor, left, right) == Some(left ^ right),
        folded_binary(FoldOperator::BitwiseAndNot, left, right) == Some(left & !right),
        0 <= right < 128 ==> folded_binary(FoldOperator::ShiftRight, left, right) == Some(left >> (right as u32)),
{
}

/// The complement of a constant is `-value - 1`, which always fits.
pub proof fn law_complement_is_minus_one_less_than_negation(value: i128)
    ensures
        folded_unary(FoldUnary::BitwiseNot, value) == Some((-value - 1) as i128),
        i128::MIN <= -value - 1 <= i128::MAX,
{
    assert(!value == -value - 1) by (bit_vector);
}

/// Folding a division or a remainder gives Go's truncated quotient and
/// remainder: `quotient * right + remainder == left`, the remainder smaller
/// than `right` in size and of the sign of `left` (or zero). Both give up on
/// a zero divisor and on the one quotient that overflows, `i128::MIN / -1`.
pub proof fn law_division_truncates_toward_zero(left: i128, right: i128)
    ensures
        right == 0 ==> folded_binary(FoldOperator::Division, left, right) is None
            && folded_binary(FoldOperator::Remainder, left, right) is None,
        (left == i128::MIN && right == -1) ==> folded_binary(FoldOperator::Division, left, right) is None
            && folded_binary(FoldOperator::Remainder, left, right) is None,
        (right != 0 && !(left == i128::MIN && right == -1)) ==> {
            &&& folded_binary(FoldOperator::Division, left, right) is Some
            &&& folded_binary(FoldOperator::Remainder, left, right) is Some
            &&& ({
                let quotient = folded_binary(FoldOperator::Division, left, right).unwrap();
                let remainder = folded_binary(FoldOperator::Remainder, left, right).unwrap();
                &&& quotient * right + remainder == left
                &&& (if remainder < 0 { -remainder } else { remainder as int }) < (if right < 0 { -right } else { right as int })
                &&& (remainder == 0 || (remainder < 0) == (left < 0))
            })
        },
{
    let x = left as int;
    let d = right as int;
    if d != 0 && !(left == i128::MIN && right == -1) {
        if x == 0 {
        } else if x > 0 && d > 0 {
            lemma_positive_division(x, d);
        } else if x < 0 && d < 0 {
            lemma_positive_division(-x, -d);
            assert((x * -1) == -x && (d * -1) == -d);
            assert(((-x) / (-d)) * d == -(((-x) / (-d)) * (-d))) by (nonlinear_arith);
        } else if x < 0 {
            lemma_positive_division(-x, d);
            assert((x * -1) == -x);
            assert((((-x) / d) * -1) * d == -(((-x) / d) * d)) by (nonlinear_arith);
        } else {
            lemma_positive_division(x, -d);
            assert((d * -1) == -d);
            assert(((x / (-d)) * -1) * d == (x / (-d)) * (-d)) by (nonlinear_arith);
        }
    }
}

} // verus!
