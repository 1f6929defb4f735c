//! Constructors and helper functions to make working with expressions easier.

use vstd::prelude::*;
use crate::expression::{Expression, ExprV, RationalRepresentation};
use crate::number::{big_from_i64, norm_rat, rat_new, lemma_norm_rat, ComplexV};
use crate::expression::Complex;
use crate::expression::expr_v_seq;

verus! {

/// Returns an expression representing the variable with the given identifier.
pub fn var(identifier: &str) -> (r: Expression)
    ensures
        r@ == ExprV::Variable(identifier@),
{
    Expression::Variable(identifier.to_owned())
}

/// Returns an expression representing the evaluation of the given function
/// at the given arguments.
pub fn fun(function: Expression, arguments: Vec<Expression>) -> (r: Expression)
    ensures
        r@ == ExprV::Function(Box::new(function@), expr_v_seq(arguments@)),
{
    Expression::Function(Box::new(function), arguments)
}

/// Returns an expression representing the given integer.
pub fn integer(value: i64) -> (r: Expression)
    ensures
        r@ == ExprV::Integer(value as int),
{
    Expression::Integer(big_from_i64(value))
}

/// Returns an expression representing the rational number with
/// the given numerator and denominator, using fraction representation.
pub fn rat(numerator: i64, denominator: i64) -> (r: Expression)
    requires
        denominator != 0,
    ensures
        r@ == ExprV::Rational(
            norm_rat(numerator as int, denominator as int),
            RationalRepresentation::Fraction,
        ),
        norm_rat(numerator as int, denominator as int).d > 0,
{
    proof {
        lemma_norm_rat(numerator as int, denominator as int);
    }
    Expression::Rational(
        rat_new(big_from_i64(numerator), big_from_i64(denominator)),
        RationalRepresentation::Fraction,
    )
}

/// Returns an expression representing the rational number with
/// the given numerator and denominator, using decimal representation,
/// falling back to fraction representation if the number cannot be
/// represented as a finite decimal.
pub fn ratd(numerator: i64, denominator: i64) -> (r: Expression)
    requires
        denominator != 0,
    ensures
        r@ == ExprV::Rational(
            norm_rat(numerator as int, denominator as int),
            RationalRepresentation::Decimal,
        ),
        norm_rat(numerator as int, denominator as int).d > 0,
{
    proof {
        lemma_norm_rat(numerator as int, denominator as int);
    }
    Expression::Rational(
        rat_new(big_from_i64(numerator), big_from_i64(denominator)),
        RationalRepresentation::Decimal,
    )
}

/// Returns an expression representing the complex number with
/// real and imaginary parts being rational numbers described by
/// the given numerators and denominators, using fraction representation.
pub fn com(
    real_numerator: i64,
    real_denominator: i64,
    imaginary_numerator: i64,
    imaginary_denominator: i64,
) -> (r: Expression)
    requires
        real_denominator != 0,
        imaginary_denominator != 0,
    ensures
        r@ == ExprV::Complex(
            (ComplexV {
                re: norm_rat(real_numerator as int, real_denominator as int),
                im: norm_rat(imaginary_numerator as int, imaginary_denominator as int),
            }),
            RationalRepresentation::Fraction,
        ),
        norm_rat(real_numerator as int, real_denominator as int).d > 0,
        norm_rat(imaginary_numerator as int, imaginary_denominator as int).d > 0,
{
    proof {
        lemma_norm_rat(real_numerator as int, real_denominator as int);
        lemma_norm_rat(imaginary_numerator as int, imaginary_denominator as int);
    }
    Expression::Complex(
        Complex {
            re: rat_new(big_from_i64(real_numerator), big_from_i64(real_denominator)),
            im: rat_new(big_from_i64(imaginary_numerator), big_from_i64(imaginary_denominator)),
        },
        RationalRepresentation::Fraction,
    )
}

/// Returns an expression representing the complex number with
/// real and imaginary parts being rational numbers described by
/// the given numerators and denominators, using decimal representation,
/// falling back to fraction representation for parts that cannot be
/// represented as a finite decimal.
pub fn comd(
    real_numerator: i64,
    real_denominator: i64,
    imaginary_numerator: i64,
    imaginary_denominator: i64,
) -> (r: Expression)
    requires
        real_denominator != 0,
        imaginary_denominator != 0,
    ensures
        r@ == ExprV::Complex(
            (ComplexV {
                re: norm_rat(real_numerator as int, real_denominator as int),
                im: norm_rat(imaginary_numerator as int, imaginary_denominator as int),
            }),
            RationalRepresentation::Decimal,
        ),
        norm_rat(real_numerator as int, real_denominator as int).d > 0,
        norm_rat(imaginary_numerator as int, imaginary_denominator as int).d > 0,
{
    proof {
        lemma_norm_rat(real_numerator as int, real_denominator as int);
        lemma_norm_rat(imaginary_numerator as int, imaginary_denominator as int);
    }
    Expression::Complex(
        Complex {
            re: rat_new(big_from_i64(real_numerator), big_from_i64(real_denominator)),
            im: rat_new(big_from_i64(imaginary_numerator), big_from_i64(imaginary_denominator)),
        },
        RationalRepresentation::Decimal,
    )
}

/// Returns an expression representing a matrix with the given rows,
/// which must all have the same length.
pub fn matrix(rows: Vec<Vec<Expression>>) -> (r: Expression)
    requires
        forall|i: int| 0 <= i < rows@.len() ==> (#[trigger] rows@[i])@.len() == (
        if rows@.len() > 0 {
            rows@[0]@.len()
        } else {
            0
        }),
    ensures
        r@ == ExprV::Matrix(
            (crate::expression::MatV {
                rows: rows@.len(),
                cols: if rows@.len() > 0 {
                    rows@[0]@.len()
                } else {
                    0
                },
                grid: crate::expression::expr_v_rows(rows@),
            }),
        ),
{
    let nrows = rows.len();
    let ncols = if rows.len() > 0 {
        rows[0].len()
    } else {
        0
    };
    Expression::Matrix(crate::expression::Matrix { nrows, ncols, entries: rows })
}

/// Returns an expression representing a column vector with the given elements.
pub fn vector(elements: Vec<Expression>) -> (r: Expression)
    ensures
        r@ == ExprV::Vector(expr_v_seq(elements@)),
{
    Expression::Vector(elements)
}

/// Returns an expression representing the arithmetic negation of the given expression.
pub fn neg(a: Expression) -> (r: Expression)
    ensures
        r@ == ExprV::Negation(Box::new(a@)),
{
    Expression::Negation(Box::new(a))
}

/// Returns an expression representing the logical negation (NOT) of the given expression.
pub fn logical_not(a: Expression) -> (r: Expression)
    ensures
        r@ == ExprV::Not(Box::new(a@)),
{
    Expression::Not(Box::new(a))
}

/// Returns an expression representing the sum of two expressions.
pub fn sum(a: Expression, b: Expression) -> (r: Expression)
    ensures
        r@ == ExprV::Sum(Box::new(a@), Box::new(b@)),
{
    Expression::Sum(Box::new(a), Box::new(b))
}

/// Returns an expression representing the difference of two expressions.
pub fn difference(a: Expression, b: Expression) -> (r: Expression)
    ensures
        r@ == ExprV::Difference(Box::new(a@), Box::new(b@)),
{
    Expression::Difference(Box::new(a), Box::new(b))
}

/// Returns an expression representing the product of two expressions.
pub fn product(a: Expression, b: Expression) -> (r: Expression)
    ensures
        r@ == ExprV::Product(Box::new(a@), Box::new(b@)),
{
    Expression::Product(Box::new(a), Box::new(b))
}

/// Returns an expression representing the quotient of two expressions.
pub fn quotient(a: Expression, b: Expression) -> (r: Expression)
    ensures
        r@ == ExprV::Quotient(Box::new(a@), Box::new(b@)),
{
    Expression::Quotient(Box::new(a), Box::new(b))
}

/// Returns an expression representing the remainder of the division
/// of the first expression by the second.
pub fn remainder(a: Expression, b: Expression) -> (r: Expression)
    ensures
        r@ == ExprV::Remainder(Box::new(a@), Box::new(b@)),
{
    Expression::Remainder(Box::new(a), Box::new(b))
}

/// Returns an expression representing the first expression raised to the power of the second.
pub fn pow(base: Expression, exponent: Expression) -> (r: Expression)
    ensures
        r@ == ExprV::Power(Box::new(base@), Box::new(exponent@)),
{
    Expression::Power(Box::new(base), Box::new(exponent))
}

/// Returns an expression representing whether two expressions are equal.
pub fn eq(left: Expression, right: Expression) -> (r: Expression)
    ensures
        r@ == ExprV::Equal(Box::new(left@), Box::new(right@)),
{
    Expression::Equal(Box::new(left), Box::new(right))
}

/// Returns an expression representing whether two expressions are not equal.
pub fn ne(left: Expression, right: Expression) -> (r: Expression)
    ensures
        r@ == ExprV::NotEqual(Box::new(left@), Box::new(right@)),
{
    Expression::NotEqual(Box::new(left), Box::new(right))
}

/// Returns an expression representing whether the first expression is less than the second.
pub fn lt(left: Expression, right: Expression) -> (r: Expression)
    ensures
        r@ == ExprV::LessThan(Box::new(left@), Box::new(right@)),
{
    Expression::LessThan(Box::new(left), Box::new(right))
}

/// Returns an expression representing whether the first expression is
/// less than or equal to the second.
pub fn le(left: Expression, right: Expression) -> (r: Expression)
    ensures
        r@ == ExprV::LessThanOrEqual(Box::new(left@), Box::new(right@)),
{
    Expression::LessThanOrEqual(Box::new(left), Box::new(right))
}

/// Returns an expression representing whether the first expression is greater than the second.
pub fn gt(left: Expression, right: Expression) -> (r: Expression)
    ensures
        r@ == ExprV::GreaterThan(Box::new(left@), Box::new(right@)),
{
    Expression::GreaterThan(Box::new(left), Box::new(right))
}

/// Returns an expression representing whether the first expression is
/// greater than or equal to the second.
pub fn ge(left: Expression, right: Expression) -> (r: Expression)
    ensures
        r@ == ExprV::GreaterThanOrEqual(Box::new(left@), Box::new(right@)),
{
    Expression::GreaterThanOrEqual(Box::new(left), Box::new(right))
}

/// Returns an expression representing the logical conjunction (AND) of two expressions.
pub fn and(a: Expression, b: Expression) -> (r: Expression)
    ensures
        r@ == ExprV::And(Box::new(a@), Box::new(b@)),
{
    Expression::And(Box::new(a), Box::new(b))
}

/// Returns an expression representing the logical disjunction (OR) of two expressions.
pub fn or(a: Expression, b: Expression) -> (r: Expression)
    ensures
        r@ == ExprV::Or(Box::new(a@), Box::new(b@)),
{
    Expression::Or(Box::new(a), Box::new(b))
}

} // verus!
