//! The expression tree: an immutable recursive sum type over the exact
//! numeric tower, together with its mathematical view (`ExprV`), its
//! well-formedness predicate, the evaluability classification, and the
//! precedence / associativity table that drives minimal parenthesization.

use vstd::prelude::*;
use crate::number::{
    big_from_i64, big_from_u64, big_clone, big_eq, big_lt, decimal_representation,
    finite_dec_repr, rat_clone, rat_from_big, rat_is_negative, rat_is_one_denom,
    rat_is_zero, rat_numer_big, rat_pair_eq, rat_v, rat_zero, rat_one, big_int_value,
    rat_add, rat_sub, rat_mul, rat_div, rat_neg, rat_value_eq,
    c_add_v, c_sub_v, c_mul_v, c_div_v, c_neg_v, c_norm_sq_v, c_is_zero_v, c_zero_v, c_one_v,
    c_wf, lemma_c_add_wf, lemma_c_sub_wf, lemma_c_mul_wf, lemma_c_div_wf,
    lemma_c_norm_sq_nonzero, lemma_rat_add_wf, lemma_rat_mul_wf, lemma_rat_sub_wf,
    ComplexV, RatV, Rational,
};

verus! {

/// Preferred representation when printing a rational number.
#[derive(PartialEq, Eq, Structural, Clone, Copy, Debug)]
pub enum RationalRepresentation {
    /// Fraction (numerator/denominator).
    Fraction,
    /// Decimal, falling back to fraction representation
    /// if the number cannot be represented as a finite decimal.
    Decimal,
}

/// The representation preferred for the result of an operation on two
/// numbers with representations `a` and `b`: decimal wins.
pub open spec fn merge_repr(
    a: RationalRepresentation,
    b: RationalRepresentation,
) -> RationalRepresentation {
    if a == RationalRepresentation::Decimal || b == RationalRepresentation::Decimal {
        RationalRepresentation::Decimal
    } else {
        RationalRepresentation::Fraction
    }
}

impl RationalRepresentation {
    /// Returns the preferred representation for the result of an operation
    /// on two numbers with representations `self` and `other`.
    pub fn merge(self, other: Self) -> (r: Self)
        ensures
            r == merge_repr(self, other),
    {
        if matches!(self, RationalRepresentation::Decimal)
            || matches!(other, RationalRepresentation::Decimal) {
            RationalRepresentation::Decimal
        } else {
            RationalRepresentation::Fraction
        }
    }
}

/// Complex number: real and imaginary parts are exact rationals.
#[derive(Debug)]
pub struct Complex {
    pub re: Rational,
    pub im: Rational,
}

impl Complex {
    pub open spec fn view_c(&self) -> ComplexV {
        ComplexV { re: rat_v(self.re), im: rat_v(self.im) }
    }
}

/// The identifier of a built-in function of the registry.
#[derive(PartialEq, Eq, Structural, Clone, Copy, Debug)]
pub enum BuiltinFunction {
    Determinant,
    Transpose,
    Trace,
    Nullspace,
    Eigenvalues,
    Eigenvectors,
    LogicalAnd,
}

/// The implementation carried by a bound function value: either one of
/// the built-ins, or a user definition with parameter names and a body.
#[derive(Debug)]
pub enum FunctionBody {
    Builtin(BuiltinFunction),
    UserDefined(Vec<String>, Box<Expression>),
}

/// Column-major in concept, stored as rows: a rectangular grid of
/// expressions with fixed dimensions.
#[derive(Debug)]
pub struct Matrix {
    pub nrows: usize,
    pub ncols: usize,
    pub entries: Vec<Vec<Expression>>,
}

/// Symbolic expression.
#[derive(Debug)]
pub enum Expression {
    /// Variable with identifier.
    Variable(String),
    /// Function evaluation with arguments (an unresolved call).
    Function(Box<Expression>, Vec<Expression>),
    /// Integer.
    Integer(num::bigint::BigInt),
    /// Rational number with preferred representation.
    Rational(Rational, RationalRepresentation),
    /// Complex number with preferred representation for real and imaginary parts.
    Complex(Complex, RationalRepresentation),
    /// Column vector.
    Vector(Vec<Expression>),
    /// Matrix.
    Matrix(Matrix),
    /// Boolean value.
    Boolean(bool),
    /// Bound function value: a named invocable implementation.
    FunctionValue(String, FunctionBody),
    /// Arithmetic negation of an expression.
    Negation(Box<Expression>),
    /// Logical negation (NOT) of an expression.
    Not(Box<Expression>),
    /// Sum of two expressions.
    Sum(Box<Expression>, Box<Expression>),
    /// Difference of two expressions.
    Difference(Box<Expression>, Box<Expression>),
    /// Product of two expressions.
    Product(Box<Expression>, Box<Expression>),
    /// Quotient of two expressions.
    Quotient(Box<Expression>, Box<Expression>),
    /// Remainder of the division of the first expression by the second.
    Remainder(Box<Expression>, Box<Expression>),
    /// The first expression raised to the power of the second.
    Power(Box<Expression>, Box<Expression>),
    /// Whether two expressions are equal.
    Equal(Box<Expression>, Box<Expression>),
    /// Whether two expressions are not equal.
    NotEqual(Box<Expression>, Box<Expression>),
    /// Whether the first expression is less than the second.
    LessThan(Box<Expression>, Box<Expression>),
    /// Whether the first expression is less than or equal to the second.
    LessThanOrEqual(Box<Expression>, Box<Expression>),
    /// Whether the first expression is greater than the second.
    GreaterThan(Box<Expression>, Box<Expression>),
    /// Whether the first expression is greater than or equal to the second.
    GreaterThanOrEqual(Box<Expression>, Box<Expression>),
    /// Logical conjunction (AND) of two expressions.
    And(Box<Expression>, Box<Expression>),
    /// Logical disjunction (OR) of two expressions.
    Or(Box<Expression>, Box<Expression>),
}

/// The mathematical view of a matrix: its dimensions and its grid of
/// element views, row by row.
pub struct MatV {
    pub rows: nat,
    pub cols: nat,
    pub grid: Seq<Seq<ExprV>>,
}

/// The mathematical view of a bound function implementation.
pub enum FunV {
    Builtin(BuiltinFunction),
    UserDefined(Seq<Seq<char>>, Box<ExprV>),
}

/// The mathematical view of an expression tree.
pub enum ExprV {
    Variable(Seq<char>),
    Function(Box<ExprV>, Seq<ExprV>),
    Integer(int),
    Rational(RatV, RationalRepresentation),
    Complex(ComplexV, RationalRepresentation),
    Vector(Seq<ExprV>),
    Matrix(MatV),
    Boolean(bool),
    FunctionValue(Seq<char>, FunV),
    Negation(Box<ExprV>),
    Not(Box<ExprV>),
    Sum(Box<ExprV>, Box<ExprV>),
    Difference(Box<ExprV>, Box<ExprV>),
    Product(Box<ExprV>, Box<ExprV>),
    Quotient(Box<ExprV>, Box<ExprV>),
    Remainder(Box<ExprV>, Box<ExprV>),
    Power(Box<ExprV>, Box<ExprV>),
    Equal(Box<ExprV>, Box<ExprV>),
    NotEqual(Box<ExprV>, Box<ExprV>),
    LessThan(Box<ExprV>, Box<ExprV>),
    LessThanOrEqual(Box<ExprV>, Box<ExprV>),
    GreaterThan(Box<ExprV>, Box<ExprV>),
    GreaterThanOrEqual(Box<ExprV>, Box<ExprV>),
    And(Box<ExprV>, Box<ExprV>),
    Or(Box<ExprV>, Box<ExprV>),
}

pub open spec fn expr_v(e: Expression) -> ExprV
    decreases e,
{
    match e {
        Expression::Variable(s) => ExprV::Variable(s@),
        Expression::Function(f, args) => ExprV::Function(
            Box::new(expr_v(*f)),
            expr_v_seq(args@),
        ),
        Expression::Integer(n) => ExprV::Integer(big_int_value(n)),
        Expression::Rational(x, rep) => ExprV::Rational(rat_v(x), rep),
        Expression::Complex(z, rep) => ExprV::Complex(z.view_c(), rep),
        Expression::Vector(es) => ExprV::Vector(expr_v_seq(es@)),
        Expression::Matrix(m) => ExprV::Matrix(
            MatV {
                rows: m.nrows as nat,
                cols: m.ncols as nat,
                grid: expr_v_rows(m.entries@),
            },
        ),
        Expression::Boolean(b) => ExprV::Boolean(b),
        Expression::FunctionValue(name, body) => ExprV::FunctionValue(
            name@,
            match body {
                FunctionBody::Builtin(b) => FunV::Builtin(b),
                FunctionBody::UserDefined(params, b) => FunV::UserDefined(
                    params@.map_values(|p: String| p@),
                    Box::new(expr_v(*b)),
                ),
            },
        ),
        Expression::Negation(a) => ExprV::Negation(Box::new(expr_v(*a))),
        Expression::Not(a) => ExprV::Not(Box::new(expr_v(*a))),
        Expression::Sum(a, b) => ExprV::Sum(Box::new(expr_v(*a)), Box::new(expr_v(*b))),
        Expression::Difference(a, b) => ExprV::Difference(
            Box::new(expr_v(*a)),
            Box::new(expr_v(*b)),
        ),
        Expression::Product(a, b) => ExprV::Product(Box::new(expr_v(*a)), Box::new(expr_v(*b))),
        Expression::Quotient(a, b) => ExprV::Quotient(Box::new(expr_v(*a)), Box::new(expr_v(*b))),
        Expression::Remainder(a, b) => ExprV::Remainder(
            Box::new(expr_v(*a)),
            Box::new(expr_v(*b)),
        ),
        Expression::Power(a, b) => ExprV::Power(Box::new(expr_v(*a)), Box::new(expr_v(*b))),
        Expression::Equal(a, b) => ExprV::Equal(Box::new(expr_v(*a)), Box::new(expr_v(*b))),
        Expression::NotEqual(a, b) => ExprV::NotEqual(Box::new(expr_v(*a)), Box::new(expr_v(*b))),
        Expression::LessThan(a, b) => ExprV::LessThan(Box::new(expr_v(*a)), Box::new(expr_v(*b))),
        Expression::LessThanOrEqual(a, b) => ExprV::LessThanOrEqual(
            Box::new(expr_v(*a)),
            Box::new(expr_v(*b)),
        ),
        Expression::GreaterThan(a, b) => ExprV::GreaterThan(
            Box::new(expr_v(*a)),
            Box::new(expr_v(*b)),
        ),
        Expression::GreaterThanOrEqual(a, b) => ExprV::GreaterThanOrEqual(
            Box::new(expr_v(*a)),
            Box::new(expr_v(*b)),
        ),
        Expression::And(a, b) => ExprV::And(Box::new(expr_v(*a)), Box::new(expr_v(*b))),
        Expression::Or(a, b) => ExprV::Or(Box::new(expr_v(*a)), Box::new(expr_v(*b))),
    }
}

pub open spec fn expr_v_seq(es: Seq<Expression>) -> Seq<ExprV>
    decreases es,
{
    if es.len() == 0 {
        Seq::empty()
    } else {
        seq![expr_v(es[0])] + expr_v_seq(es.drop_first())
    }
}

pub open spec fn expr_v_rows(rs: Seq<Vec<Expression>>) -> Seq<Seq<ExprV>>
    decreases rs,
{
    if rs.len() == 0 {
        Seq::empty()
    } else {
        seq![expr_v_seq(rs[0]@)] + expr_v_rows(rs.drop_first())
    }
}

impl View for Expression {
    type V = ExprV;

    open spec fn view(&self) -> ExprV {
        expr_v(*self)
    }
}

pub broadcast proof fn lemma_expr_v_seq_index(es: Seq<Expression>, i: int)
    requires
        0 <= i < es.len(),
    ensures
        #[trigger] expr_v_seq(es)[i] == expr_v(es[i]),
        expr_v_seq(es).len() == es.len(),
    decreases es,
{
    lemma_expr_v_seq_len(es);
    if i > 0 {
        lemma_expr_v_seq_index(es.drop_first(), i - 1);
    }
}

pub broadcast proof fn lemma_expr_v_seq_len(es: Seq<Expression>)
    ensures
        (#[trigger] expr_v_seq(es)).len() == es.len(),
    decreases es,
{
    if es.len() > 0 {
        lemma_expr_v_seq_len(es.drop_first());
    }
}

pub broadcast proof fn lemma_expr_v_rows_index(rs: Seq<Vec<Expression>>, i: int)
    requires
        0 <= i < rs.len(),
    ensures
        #[trigger] expr_v_rows(rs)[i] == expr_v_seq(rs[i]@),
        expr_v_rows(rs).len() == rs.len(),
    decreases rs,
{
    lemma_expr_v_rows_len(rs);
    if i > 0 {
        lemma_expr_v_rows_index(rs.drop_first(), i - 1);
    }
}

pub broadcast proof fn lemma_expr_v_rows_len(rs: Seq<Vec<Expression>>)
    ensures
        (#[trigger] expr_v_rows(rs)).len() == rs.len(),
    decreases rs,
{
    if rs.len() > 0 {
        lemma_expr_v_rows_len(rs.drop_first());
    }
}

// ------------------------------------------------------------------
// Well-formedness: every rational pair reachable in the view has a
// positive denominator, and every matrix grid matches its dimensions.
// ------------------------------------------------------------------

pub open spec fn complex_v_wf(z: ComplexV) -> bool {
    z.re.d > 0 && z.im.d > 0
}

pub open spec fn mat_v_wf(m: MatV) -> bool {
    &&& m.grid.len() == m.rows
    &&& forall|r: int| 0 <= r < m.grid.len() ==> (#[trigger] m.grid[r]).len() == m.cols
}

pub open spec fn wf_v(e: ExprV) -> bool
    decreases e,
{
    match e {
        ExprV::Variable(_) => true,
        ExprV::Function(f, args) => wf_v(*f) && wf_v_seq(args),
        ExprV::Integer(_) => true,
        ExprV::Rational(x, _) => x.d > 0,
        ExprV::Complex(z, _) => complex_v_wf(z),
        ExprV::Vector(es) => wf_v_seq(es),
        ExprV::Matrix(m) => mat_v_wf(m) && wf_v_grid(m.grid),
        ExprV::Boolean(_) => true,
        ExprV::FunctionValue(_, body) => match body {
            FunV::Builtin(_) => true,
            FunV::UserDefined(_, b) => wf_v(*b),
        },
        ExprV::Negation(a) => wf_v(*a),
        ExprV::Not(a) => wf_v(*a),
        ExprV::Sum(a, b) => wf_v(*a) && wf_v(*b),
        ExprV::Difference(a, b) => wf_v(*a) && wf_v(*b),
        ExprV::Product(a, b) => wf_v(*a) && wf_v(*b),
        ExprV::Quotient(a, b) => wf_v(*a) && wf_v(*b),
        ExprV::Remainder(a, b) => wf_v(*a) && wf_v(*b),
        ExprV::Power(a, b) => wf_v(*a) && wf_v(*b),
        ExprV::Equal(a, b) => wf_v(*a) && wf_v(*b),
        ExprV::NotEqual(a, b) => wf_v(*a) && wf_v(*b),
        ExprV::LessThan(a, b) => wf_v(*a) && wf_v(*b),
        ExprV::LessThanOrEqual(a, b) => wf_v(*a) && wf_v(*b),
        ExprV::GreaterThan(a, b) => wf_v(*a) && wf_v(*b),
        ExprV::GreaterThanOrEqual(a, b) => wf_v(*a) && wf_v(*b),
        ExprV::And(a, b) => wf_v(*a) && wf_v(*b),
        ExprV::Or(a, b) => wf_v(*a) && wf_v(*b),
    }
}

pub open spec fn wf_v_seq(es: Seq<ExprV>) -> bool
    decreases es,
{
    if es.len() == 0 {
        true
    } else {
        wf_v(es[0]) && wf_v_seq(es.drop_first())
    }
}

pub open spec fn wf_v_grid(rs: Seq<Seq<ExprV>>) -> bool
    decreases rs,
{
    if rs.len() == 0 {
        true
    } else {
        wf_v_seq(rs[0]) && wf_v_grid(rs.drop_first())
    }
}

pub broadcast proof fn lemma_wf_v_seq_index(es: Seq<ExprV>, i: int)
    requires
        0 <= i < es.len(),
        wf_v_seq(es),
    ensures
        #[trigger] wf_v(es[i]),
    decreases es,
{
    if i > 0 {
        lemma_wf_v_seq_index(es.drop_first(), i - 1);
    }
}

pub broadcast proof fn lemma_wf_v_grid_index(rs: Seq<Seq<ExprV>>, i: int)
    requires
        0 <= i < rs.len(),
        wf_v_grid(rs),
    ensures
        wf_v_seq(#[trigger] rs[i]),
    decreases rs,
{
    if i > 0 {
        lemma_wf_v_grid_index(rs.drop_first(), i - 1);
    }
}

proof fn lemma_wf_v_seq_all(es: Seq<ExprV>)
    requires
        forall|i: int| 0 <= i < es.len() ==> wf_v(#[trigger] es[i]),
    ensures
        wf_v_seq(es),
    decreases es,
{
    if es.len() > 0 {
        lemma_wf_v_seq_all(es.drop_first());
    }
}

pub proof fn lemma_wf_v_seq_iff(es: Seq<ExprV>)
    ensures
        wf_v_seq(es) <==> (forall|i: int| 0 <= i < es.len() ==> wf_v(#[trigger] es[i])),
{
    if wf_v_seq(es) {
        assert forall|i: int| 0 <= i < es.len() implies wf_v(#[trigger] es[i]) by {
            lemma_wf_v_seq_index(es, i);
        }
    }
    if forall|i: int| 0 <= i < es.len() ==> wf_v(#[trigger] es[i]) {
        lemma_wf_v_seq_all(es);
    }
}

proof fn lemma_wf_v_grid_all(rs: Seq<Seq<ExprV>>)
    requires
        forall|i: int| 0 <= i < rs.len() ==> wf_v_seq(#[trigger] rs[i]),
    ensures
        wf_v_grid(rs),
    decreases rs,
{
    if rs.len() > 0 {
        lemma_wf_v_grid_all(rs.drop_first());
    }
}

pub proof fn lemma_wf_v_grid_iff(rs: Seq<Seq<ExprV>>)
    ensures
        wf_v_grid(rs) <==> (forall|i: int| 0 <= i < rs.len() ==> wf_v_seq(#[trigger] rs[i])),
{
    if wf_v_grid(rs) {
        assert forall|i: int| 0 <= i < rs.len() implies wf_v_seq(#[trigger] rs[i]) by {
            lemma_wf_v_grid_index(rs, i);
        }
    }
    if forall|i: int| 0 <= i < rs.len() ==> wf_v_seq(#[trigger] rs[i]) {
        lemma_wf_v_grid_all(rs);
    }
}


// ------------------------------------------------------------------
// Evaluability classification.
// ------------------------------------------------------------------

/// Basic expression type designed to make evaluating expressions easier.
pub enum Type {
    /// Number with preferred representation for rational parts.
    Number(Complex, RationalRepresentation),
    /// Matrix.
    Matrix(Matrix),
    /// Boolean expression with value (if available).
    Boolean(Option<bool>),
    /// Arithmetic expression (in particular, this expression does *not* have a boolean value).
    Arithmetic,
    /// Expression that cannot be assigned to any of the above types with certainty.
    Unknown,
}

/// The mathematical view of an evaluability class.
pub enum ClassV {
    Number(ComplexV, RationalRepresentation),
    Matrix(MatV),
    Boolean(Option<bool>),
    Arithmetic,
    Unknown,
}

/// The class of an expression, read off its own shape: literals are
/// concrete, operator nodes are arithmetic or boolean by kind, and
/// variables, calls and function values are unknown.
pub open spec fn class_v(e: ExprV) -> ClassV {
    match e {
        ExprV::Variable(_) => ClassV::Unknown,
        ExprV::Function(_, _) => ClassV::Unknown,
        ExprV::FunctionValue(_, _) => ClassV::Unknown,
        ExprV::Integer(n) => ClassV::Number(
            (ComplexV { re: RatV { n: n, d: 1 }, im: RatV { n: 0, d: 1 } }),
            RationalRepresentation::Fraction,
        ),
        ExprV::Rational(x, rep) => ClassV::Number(
            (ComplexV { re: x, im: RatV { n: 0, d: 1 } }),
            rep,
        ),
        ExprV::Complex(z, rep) => ClassV::Number(z, rep),
        ExprV::Vector(es) => ClassV::Matrix(
            (MatV { rows: es.len(), cols: 1, grid: Seq::new(es.len(), |i: int| seq![es[i]]) }),
        ),
        ExprV::Matrix(m) => ClassV::Matrix(m),
        ExprV::Boolean(b) => ClassV::Boolean(Some(b)),
        ExprV::Negation(_) => ClassV::Arithmetic,
        ExprV::Not(_) => ClassV::Boolean(None),
        ExprV::Sum(_, _) => ClassV::Arithmetic,
        ExprV::Difference(_, _) => ClassV::Arithmetic,
        ExprV::Product(_, _) => ClassV::Arithmetic,
        ExprV::Quotient(_, _) => ClassV::Arithmetic,
        ExprV::Remainder(_, _) => ClassV::Arithmetic,
        ExprV::Power(_, _) => ClassV::Arithmetic,
        ExprV::Equal(_, _) => ClassV::Boolean(None),
        ExprV::NotEqual(_, _) => ClassV::Boolean(None),
        ExprV::LessThan(_, _) => ClassV::Boolean(None),
        ExprV::LessThanOrEqual(_, _) => ClassV::Boolean(None),
        ExprV::GreaterThan(_, _) => ClassV::Boolean(None),
        ExprV::GreaterThanOrEqual(_, _) => ClassV::Boolean(None),
        ExprV::And(_, _) => ClassV::Boolean(None),
        ExprV::Or(_, _) => ClassV::Boolean(None),
    }
}

pub open spec fn type_v(t: Type) -> ClassV {
    match t {
        Type::Number(z, rep) => ClassV::Number(z.view_c(), rep),
        Type::Matrix(m) => ClassV::Matrix(
            (MatV {
                rows: m.nrows as nat,
                cols: m.ncols as nat,
                grid: expr_v_rows(m.entries@),
            }),
        ),
        Type::Boolean(b) => ClassV::Boolean(b),
        Type::Arithmetic => ClassV::Arithmetic,
        Type::Unknown => ClassV::Unknown,
    }
}

// ------------------------------------------------------------------
// Precedence and associativity.
// ------------------------------------------------------------------

/// Associativity of an operator expression.
#[derive(PartialEq, Eq, Structural, Clone, Copy, Debug)]
pub enum Associativity {
    /// `a OP b OP c == (a OP b) OP c`.
    LeftAssociative,
    /// `a OP b OP c == a OP (b OP c)`.
    RightAssociative,
    /// `a OP b OP c == (a OP b) OP c == a OP (b OP c)`.
    Associative,
}

/// Whether a rational with this representation tag is printed in
/// fraction form (with a `/`).
pub open spec fn prints_as_fraction(x: RatV, rep: RationalRepresentation) -> bool {
    x.d != 1 && (rep == RationalRepresentation::Fraction || finite_dec_repr(x) is None)
}

/// Whether a rational is printed as a bare `i` coefficient (unit).
pub open spec fn is_unit_rat(x: RatV) -> bool {
    (x.n == 1 || x.n == -1) && x.d == 1
}

/// The precedence and associativity of the printed form of a complex
/// number, mirroring the shapes the printer produces.
pub open spec fn complex_prec_assoc(z: ComplexV, rep: RationalRepresentation) -> (
    int,
    Associativity,
) {
    if z.re.n != 0 && z.im.n != 0 {
        if z.re.n > 0 && z.im.n > 0 {
            (1, Associativity::Associative)
        } else {
            (1, Associativity::LeftAssociative)
        }
    } else if (z.im.n == 0 && prints_as_fraction(z.re, rep)) || (z.re.n == 0 && z.im.n != 0
        && !is_unit_rat(z.im) && prints_as_fraction(z.im, rep)) {
        (2, Associativity::LeftAssociative)
    } else if z.re.n < 0 || z.im.n != 0 {
        (2, Associativity::Associative)
    } else {
        (isize::MAX as int, Associativity::Associative)
    }
}

/// The precedence (an integer meant only for comparison) and
/// associativity of the printed form of an expression.
pub open spec fn prec_assoc_v(e: ExprV) -> (int, Associativity) {
    match e {
        ExprV::Variable(_) => (isize::MAX as int, Associativity::Associative),
        ExprV::Function(_, _) => (5, Associativity::Associative),
        ExprV::Integer(n) => if n < 0 {
            (2, Associativity::Associative)
        } else {
            (isize::MAX as int, Associativity::Associative)
        },
        ExprV::Rational(x, rep) => if prints_as_fraction(x, rep) {
            (2, Associativity::LeftAssociative)
        } else if x.n < 0 {
            (2, Associativity::Associative)
        } else {
            (isize::MAX as int, Associativity::Associative)
        },
        ExprV::Complex(z, rep) => complex_prec_assoc(z, rep),
        ExprV::Vector(_) => (isize::MAX as int, Associativity::Associative),
        ExprV::Matrix(_) => (isize::MAX as int, Associativity::Associative),
        ExprV::Boolean(_) => (isize::MAX as int, Associativity::Associative),
        ExprV::FunctionValue(_, _) => (isize::MAX as int, Associativity::Associative),
        ExprV::Negation(_) => (3, Associativity::Associative),
        ExprV::Not(_) => (3, Associativity::Associative),
        ExprV::Sum(_, _) => (1, Associativity::Associative),
        ExprV::Difference(_, _) => (1, Associativity::LeftAssociative),
        ExprV::Product(_, _) => (2, Associativity::Associative),
        ExprV::Quotient(_, _) => (2, Associativity::LeftAssociative),
        ExprV::Remainder(_, _) => (2, Associativity::LeftAssociative),
        ExprV::Power(_, _) => (4, Associativity::RightAssociative),
        ExprV::Equal(_, _) => (0, Associativity::Associative),
        ExprV::NotEqual(_, _) => (0, Associativity::Associative),
        ExprV::LessThan(_, _) => (0, Associativity::Associative),
        ExprV::LessThanOrEqual(_, _) => (0, Associativity::Associative),
        ExprV::GreaterThan(_, _) => (0, Associativity::Associative),
        ExprV::GreaterThanOrEqual(_, _) => (0, Associativity::Associative),
        ExprV::And(_, _) => (-1, Associativity::Associative),
        ExprV::Or(_, _) => (-2, Associativity::Associative),
    }
}

fn rational_prints_as_fraction(x: &Rational, rep: RationalRepresentation) -> (r: bool)
    requires
        rat_v(*x).d > 0,
    ensures
        r == prints_as_fraction(rat_v(*x), rep),
{
    if rat_is_one_denom(x) {
        false
    } else if matches!(rep, RationalRepresentation::Fraction) {
        true
    } else {
        decimal_representation(x).is_none()
    }
}

pub(crate) fn rational_is_unit(x: &Rational) -> (r: bool)
    ensures
        r == is_unit_rat(rat_v(*x)),
{
    if !rat_is_one_denom(x) {
        return false;
    }
    let n = rat_numer_big(x);
    let one = big_from_u64(1);
    let minus_one = big_from_i64(-1);
    big_eq(&n, &one) || big_eq(&n, &minus_one)
}

impl Expression {
    /// Returns the precedence (as an integer intended for comparison)
    /// and associativity of the expression. For unary or non-operator
    /// expressions, to which the concept of associativity doesn't apply,
    /// `Associative` is returned.
    pub fn precedence_and_associativity(&self) -> (r: (isize, Associativity))
        requires
            wf_v(self@),
        ensures
            (r.0 as int, r.1) == prec_assoc_v(self@),
    {
        match self {
            Expression::Variable(_) => (isize::MAX, Associativity::Associative),
            Expression::Function(_, _) => (5, Associativity::Associative),
            Expression::Integer(n) => {
                let zero = big_from_u64(0);
                if big_lt(n, &zero) {
                    (2, Associativity::Associative)
                } else {
                    (isize::MAX, Associativity::Associative)
                }
            },
            Expression::Rational(x, rep) => {
                if rational_prints_as_fraction(x, *rep) {
                    (2, Associativity::LeftAssociative)
                } else if rat_is_negative(x) {
                    (2, Associativity::Associative)
                } else {
                    (isize::MAX, Associativity::Associative)
                }
            },
            Expression::Complex(z, rep) => {
                let re_zero = rat_is_zero(&z.re);
                let im_zero = rat_is_zero(&z.im);
                if !re_zero && !im_zero {
                    if !rat_is_negative(&z.re) && !rat_is_negative(&z.im) {
                        (1, Associativity::Associative)
                    } else {
                        (1, Associativity::LeftAssociative)
                    }
                } else if (im_zero && rational_prints_as_fraction(&z.re, *rep)) || (re_zero
                    && !im_zero && !rational_is_unit(&z.im) && rational_prints_as_fraction(
                    &z.im,
                    *rep,
                )) {
                    (2, Associativity::LeftAssociative)
                } else if rat_is_negative(&z.re) || !im_zero {
                    (2, Associativity::Associative)
                } else {
                    (isize::MAX, Associativity::Associative)
                }
            },
            Expression::Vector(_) => (isize::MAX, Associativity::Associative),
            Expression::Matrix(_) => (isize::MAX, Associativity::Associative),
            Expression::Boolean(_) => (isize::MAX, Associativity::Associative),
            Expression::FunctionValue(_, _) => (isize::MAX, Associativity::Associative),
            Expression::Negation(_) => (3, Associativity::Associative),
            Expression::Not(_) => (3, Associativity::Associative),
            Expression::Sum(_, _) => (1, Associativity::Associative),
            Expression::Difference(_, _) => (1, Associativity::LeftAssociative),
            Expression::Product(_, _) => (2, Associativity::Associative),
            Expression::Quotient(_, _) => (2, Associativity::LeftAssociative),
            Expression::Remainder(_, _) => (2, Associativity::LeftAssociative),
            Expression::Power(_, _) => (4, Associativity::RightAssociative),
            Expression::Equal(_, _) => (0, Associativity::Associative),
            Expression::NotEqual(_, _) => (0, Associativity::Associative),
            Expression::LessThan(_, _) => (0, Associativity::Associative),
            Expression::LessThanOrEqual(_, _) => (0, Associativity::Associative),
            Expression::GreaterThan(_, _) => (0, Associativity::Associative),
            Expression::GreaterThanOrEqual(_, _) => (0, Associativity::Associative),
            Expression::And(_, _) => (-1, Associativity::Associative),
            Expression::Or(_, _) => (-2, Associativity::Associative),
        }
    }

    /// Returns the precedence (as an integer intended for comparison) of the expression.
    pub fn precedence(&self) -> (r: isize)
        requires
            wf_v(self@),
        ensures
            r as int == prec_assoc_v(self@).0,
    {
        self.precedence_and_associativity().0
    }

    /// Returns the associativity of the expression.
    /// For unary or non-operator expressions, to which the concept
    /// of associativity doesn't apply, `Associative` is returned.
    pub fn associativity(&self) -> (r: Associativity)
        requires
            wf_v(self@),
        ensures
            r == prec_assoc_v(self@).1,
    {
        self.precedence_and_associativity().1
    }
}


// ------------------------------------------------------------------
// Structural copying.
// ------------------------------------------------------------------

pub proof fn lemma_expr_v_seq_congruence(a: Seq<Expression>, b: Seq<Expression>)
    requires
        a.len() == b.len(),
        forall|i: int| 0 <= i < a.len() ==> expr_v(#[trigger] a[i]) == expr_v(b[i]),
    ensures
        expr_v_seq(a) == expr_v_seq(b),
    decreases a,
{
    if a.len() > 0 {
        lemma_expr_v_seq_congruence(a.drop_first(), b.drop_first());
    }
}

pub proof fn lemma_expr_v_rows_congruence(a: Seq<Vec<Expression>>, b: Seq<Vec<Expression>>)
    requires
        a.len() == b.len(),
        forall|i: int| 0 <= i < a.len() ==> expr_v_seq((#[trigger] a[i])@) == expr_v_seq(b[i]@),
    ensures
        expr_v_rows(a) == expr_v_rows(b),
    decreases a,
{
    if a.len() > 0 {
        lemma_expr_v_rows_congruence(a.drop_first(), b.drop_first());
    }
}

pub(crate) fn duplicate_vec_pub(es: &Vec<Expression>) -> (r: Vec<Expression>)
    ensures
        expr_v_seq(r@) == expr_v_seq(es@),
        r@.len() == es@.len(),
{
    duplicate_vec(es)
}

fn duplicate_vec(es: &Vec<Expression>) -> (r: Vec<Expression>)
    ensures
        expr_v_seq(r@) == expr_v_seq(es@),
        r@.len() == es@.len(),
    decreases *es,
{
    let mut out: Vec<Expression> = Vec::new();
    let mut i: usize = 0;
    while i < es.len()
        invariant
            0 <= i <= es.len(),
            out@.len() == i,
            forall|j: int| 0 <= j < i ==> expr_v(#[trigger] out@[j]) == expr_v(es@[j]),
        decreases es.len() - i,
    {
        proof {
            assert(decreases_to!(*es => es@));
            assert(decreases_to!(es@ => es@[i as int]));
        }
        let d = es[i].duplicate();
        out.push(d);
        i = i + 1;
    }
    proof {
        lemma_expr_v_seq_congruence(out@, es@);
    }
    out
}

impl Matrix {
    /// A structurally equal copy of the matrix.
    pub fn duplicate(&self) -> (r: Matrix)
        ensures
            r.nrows == self.nrows,
            r.ncols == self.ncols,
            expr_v_rows(r.entries@) == expr_v_rows(self.entries@),
            r.entries@.len() == self.entries@.len(),
        decreases *self,
    {
        let mut rows: Vec<Vec<Expression>> = Vec::new();
        let mut rr: usize = 0;
        while rr < self.entries.len()
            invariant
                0 <= rr <= self.entries.len(),
                rows@.len() == rr,
                forall|j: int| 0 <= j < rr ==> expr_v_seq((#[trigger] rows@[j])@) == expr_v_seq(
                    self.entries@[j]@,
                ),
            decreases self.entries.len() - rr,
        {
            proof {
                assert(decreases_to!(*self => self.entries));
                assert(decreases_to!(self.entries => self.entries@));
                assert(decreases_to!(self.entries@ => self.entries@[rr as int]));
            }
            let row = duplicate_vec(&self.entries[rr]);
            rows.push(row);
            rr = rr + 1;
        }
        proof {
            lemma_expr_v_rows_congruence(rows@, self.entries@);
        }
        Matrix { nrows: self.nrows, ncols: self.ncols, entries: rows }
    }
}

impl Complex {
    /// A copy holding the same rational parts.
    pub fn duplicate(&self) -> (r: Complex)
        ensures
            r.view_c() == self.view_c(),
    {
        Complex { re: rat_clone(&self.re), im: rat_clone(&self.im) }
    }
}

fn duplicate_strings(ss: &Vec<String>) -> (r: Vec<String>)
    ensures
        r@.map_values(|p: String| p@) == ss@.map_values(|p: String| p@),
{
    let mut out: Vec<String> = Vec::new();
    let mut i: usize = 0;
    while i < ss.len()
        invariant
            0 <= i <= ss.len(),
            out@.len() == i,
            forall|j: int| 0 <= j < i ==> (#[trigger] out@[j])@ == ss@[j]@,
        decreases ss.len() - i,
    {
        out.push(ss[i].clone());
        i = i + 1;
    }
    proof {
        assert(out@.map_values(|p: String| p@) =~= ss@.map_values(|p: String| p@));
    }
    out
}

impl Expression {
    /// A structurally equal copy of the expression tree.
    pub fn duplicate(&self) -> (r: Expression)
        ensures
            r@ == self@,
        decreases *self,
    {
        match self {
            Expression::Variable(s) => Expression::Variable(s.clone()),
            Expression::Function(f, args) => {
                proof {
                    assert(decreases_to!(*self => self->Function_0));
                    assert(decreases_to!(*self => self->Function_1));
                    assert(self->Function_1 == *args);
                }
                Expression::Function(Box::new(f.duplicate()), duplicate_vec(args))
            },
            Expression::Integer(n) => Expression::Integer(big_clone(n)),
            Expression::Rational(x, rep) => Expression::Rational(rat_clone(x), *rep),
            Expression::Complex(z, rep) => Expression::Complex(z.duplicate(), *rep),
            Expression::Vector(es) => {
                proof {
                    assert(decreases_to!(*self => self->Vector_0));
                    assert(self->Vector_0 == *es);
                }
                Expression::Vector(duplicate_vec(es))
            },
            Expression::Matrix(m) => {
                proof {
                    assert(decreases_to!(*self => self->Matrix_0));
                    assert(self->Matrix_0 == *m);
                }
                Expression::Matrix(m.duplicate())
            },
            Expression::Boolean(b) => Expression::Boolean(*b),
            Expression::FunctionValue(name, body) => {
                let body2 = match body {
                    FunctionBody::Builtin(bf) => FunctionBody::Builtin(*bf),
                    FunctionBody::UserDefined(params, b) => {
                        proof {
                            assert(decreases_to!(*self => self->FunctionValue_1));
                            assert(self->FunctionValue_1 == *body);
                            assert(decreases_to!(*body => body->UserDefined_1));
                            assert(body->UserDefined_1 == *b);
                        }
                        FunctionBody::UserDefined(duplicate_strings(params), Box::new(
                            b.duplicate(),
                        ))
                    },
                };
                Expression::FunctionValue(name.clone(), body2)
            },
            Expression::Negation(a) => Expression::Negation(Box::new(a.duplicate())),
            Expression::Not(a) => Expression::Not(Box::new(a.duplicate())),
            Expression::Sum(a, b) => Expression::Sum(
                Box::new(a.duplicate()),
                Box::new(b.duplicate()),
            ),
            Expression::Difference(a, b) => Expression::Difference(
                Box::new(a.duplicate()),
                Box::new(b.duplicate()),
            ),
            Expression::Product(a, b) => Expression::Product(
                Box::new(a.duplicate()),
                Box::new(b.duplicate()),
            ),
            Expression::Quotient(a, b) => Expression::Quotient(
                Box::new(a.duplicate()),
                Box::new(b.duplicate()),
            ),
            Expression::Remainder(a, b) => Expression::Remainder(
                Box::new(a.duplicate()),
                Box::new(b.duplicate()),
            ),
            Expression::Power(a, b) => Expression::Power(
                Box::new(a.duplicate()),
                Box::new(b.duplicate()),
            ),
            Expression::Equal(a, b) => Expression::Equal(
                Box::new(a.duplicate()),
                Box::new(b.duplicate()),
            ),
            Expression::NotEqual(a, b) => Expression::NotEqual(
                Box::new(a.duplicate()),
                Box::new(b.duplicate()),
            ),
            Expression::LessThan(a, b) => Expression::LessThan(
                Box::new(a.duplicate()),
                Box::new(b.duplicate()),
            ),
            Expression::LessThanOrEqual(a, b) => Expression::LessThanOrEqual(
                Box::new(a.duplicate()),
                Box::new(b.duplicate()),
            ),
            Expression::GreaterThan(a, b) => Expression::GreaterThan(
                Box::new(a.duplicate()),
                Box::new(b.duplicate()),
            ),
            Expression::GreaterThanOrEqual(a, b) => Expression::GreaterThanOrEqual(
                Box::new(a.duplicate()),
                Box::new(b.duplicate()),
            ),
            Expression::And(a, b) => Expression::And(
                Box::new(a.duplicate()),
                Box::new(b.duplicate()),
            ),
            Expression::Or(a, b) => Expression::Or(
                Box::new(a.duplicate()),
                Box::new(b.duplicate()),
            ),
        }
    }

    /// Returns the basic type of the expression.
    pub fn typ(&self) -> (r: Type)
        requires
            wf_v(self@),
        ensures
            type_v(r) == class_v(self@),
    {
        match self {
            Expression::Variable(_) => Type::Unknown,
            Expression::Function(_, _) => Type::Unknown,
            Expression::FunctionValue(_, _) => Type::Unknown,
            Expression::Integer(n) => {
                let re = rat_from_big(big_clone(n));
                let z = Complex { re, im: rat_zero() };
                Type::Number(z, RationalRepresentation::Fraction)
            },
            Expression::Rational(x, rep) => {
                let z = Complex { re: rat_clone(x), im: rat_zero() };
                Type::Number(z, *rep)
            },
            Expression::Complex(z, rep) => Type::Number(z.duplicate(), *rep),
            Expression::Vector(es) => {
                let mut rows: Vec<Vec<Expression>> = Vec::new();
                let mut i: usize = 0;
                while i < es.len()
                    invariant
                        0 <= i <= es.len(),
                        *self == Expression::Vector(*es),
                        rows@.len() == i,
                        forall|j: int| 0 <= j < i ==> expr_v_seq((#[trigger] rows@[j])@)
                            == seq![expr_v(es@[j])],
                    decreases es.len() - i,
                {
                    proof {
                        assert(decreases_to!(*self => self->Vector_0));
                        assert(self->Vector_0 == *es);
                        assert(decreases_to!(*es => es@));
                        assert(decreases_to!(es@ => es@[i as int]));
                    }
                    let d = es[i].duplicate();
                    let mut row: Vec<Expression> = Vec::new();
                    row.push(d);
                    proof {
                        assert(row@ =~= seq![row@[0]]);
                        assert(expr_v_seq(row@) =~= seq![expr_v(es@[i as int])]) by {
                            assert(expr_v_seq(row@.drop_first()) =~= Seq::empty());
                        }
                    }
                    rows.push(row);
                    i = i + 1;
                }
                let m = Matrix { nrows: es.len(), ncols: 1, entries: rows };
                proof {
                    let es_v = expr_v_seq(es@);
                    let want = Seq::new(es_v.len(), |k: int| seq![es_v[k]]);
                    lemma_expr_v_seq_len(es@);
                    assert forall|k: int| 0 <= k < rows@.len() implies #[trigger] expr_v_rows(
                        rows@,
                    )[k] == want[k] by {
                        lemma_expr_v_rows_index(rows@, k);
                        lemma_expr_v_seq_index(es@, k);
                    }
                    lemma_expr_v_rows_len(rows@);
                    assert(expr_v_rows(rows@) =~= want);
                }
                Type::Matrix(m)
            },
            Expression::Matrix(m) => {
                proof {
                    assert(decreases_to!(*self => self->Matrix_0));
                    assert(self->Matrix_0 == *m);
                }
                Type::Matrix(m.duplicate())
            },
            Expression::Boolean(b) => Type::Boolean(Some(*b)),
            Expression::Negation(_) => Type::Arithmetic,
            Expression::Not(_) => Type::Boolean(None),
            Expression::Sum(_, _) => Type::Arithmetic,
            Expression::Difference(_, _) => Type::Arithmetic,
            Expression::Product(_, _) => Type::Arithmetic,
            Expression::Quotient(_, _) => Type::Arithmetic,
            Expression::Remainder(_, _) => Type::Arithmetic,
            Expression::Power(_, _) => Type::Arithmetic,
            Expression::Equal(_, _) => Type::Boolean(None),
            Expression::NotEqual(_, _) => Type::Boolean(None),
            Expression::LessThan(_, _) => Type::Boolean(None),
            Expression::LessThanOrEqual(_, _) => Type::Boolean(None),
            Expression::GreaterThan(_, _) => Type::Boolean(None),
            Expression::GreaterThanOrEqual(_, _) => Type::Boolean(None),
            Expression::And(_, _) => Type::Boolean(None),
            Expression::Or(_, _) => Type::Boolean(None),
        }
    }
}


// ------------------------------------------------------------------
// Free variables.
// ------------------------------------------------------------------

/// The identifiers of the variables that occur in an expression.
/// Bound function values are opaque here: their bodies are not entered,
/// as they were already checked to be closed when they were defined.
pub open spec fn vars_v(e: ExprV) -> Set<Seq<char>>
    decreases e,
{
    match e {
        ExprV::Variable(s) => Set::empty().insert(s),
        ExprV::Function(f, args) => vars_v(*f) + vars_v_seq(args),
        ExprV::Integer(_) => Set::empty(),
        ExprV::Rational(_, _) => Set::empty(),
        ExprV::Complex(_, _) => Set::empty(),
        ExprV::Boolean(_) => Set::empty(),
        ExprV::FunctionValue(_, _) => Set::empty(),
        ExprV::Vector(es) => vars_v_seq(es),
        ExprV::Matrix(m) => vars_v_grid(m.grid),
        ExprV::Negation(a) => vars_v(*a),
        ExprV::Not(a) => vars_v(*a),
        ExprV::Sum(a, b) => vars_v(*a) + vars_v(*b),
        ExprV::Difference(a, b) => vars_v(*a) + vars_v(*b),
        ExprV::Product(a, b) => vars_v(*a) + vars_v(*b),
        ExprV::Quotient(a, b) => vars_v(*a) + vars_v(*b),
        ExprV::Remainder(a, b) => vars_v(*a) + vars_v(*b),
        ExprV::Power(a, b) => vars_v(*a) + vars_v(*b),
        ExprV::Equal(a, b) => vars_v(*a) + vars_v(*b),
        ExprV::NotEqual(a, b) => vars_v(*a) + vars_v(*b),
        ExprV::LessThan(a, b) => vars_v(*a) + vars_v(*b),
        ExprV::LessThanOrEqual(a, b) => vars_v(*a) + vars_v(*b),
        ExprV::GreaterThan(a, b) => vars_v(*a) + vars_v(*b),
        ExprV::GreaterThanOrEqual(a, b) => vars_v(*a) + vars_v(*b),
        ExprV::And(a, b) => vars_v(*a) + vars_v(*b),
        ExprV::Or(a, b) => vars_v(*a) + vars_v(*b),
    }
}

pub open spec fn vars_v_seq(es: Seq<ExprV>) -> Set<Seq<char>>
    decreases es,
{
    if es.len() == 0 {
        Set::empty()
    } else {
        vars_v(es[0]) + vars_v_seq(es.drop_first())
    }
}

pub open spec fn vars_v_grid(rs: Seq<Seq<ExprV>>) -> Set<Seq<char>>
    decreases rs,
{
    if rs.len() == 0 {
        Set::empty()
    } else {
        vars_v_seq(rs[0]) + vars_v_grid(rs.drop_first())
    }
}

proof fn lemma_vars_seq_snoc(es: Seq<ExprV>, i: int)
    requires
        0 <= i < es.len(),
    ensures
        vars_v_seq(es.subrange(0, i + 1)) =~= vars_v_seq(es.subrange(0, i)) + vars_v(es[i]),
    decreases i,
{
    if i == 0 {
        let s1 = es.subrange(0, 1);
        assert(s1[0] == es[0]);
        assert(s1.drop_first() =~= Seq::empty());
        assert(es.subrange(0, 0) =~= Seq::<ExprV>::empty());
    } else {
        let tail = es.drop_first();
        assert(es.subrange(0, i + 1).drop_first() =~= tail.subrange(0, i));
        assert(es.subrange(0, i).drop_first() =~= tail.subrange(0, i - 1));
        lemma_vars_seq_snoc(tail, i - 1);
        assert(es.subrange(0, i + 1)[0] == es[0]);
        assert(es.subrange(0, i)[0] == es[0]);
        assert(tail[i - 1] == es[i]);
    }
}

proof fn lemma_vars_grid_snoc(rs: Seq<Seq<ExprV>>, i: int)
    requires
        0 <= i < rs.len(),
    ensures
        vars_v_grid(rs.subrange(0, i + 1)) =~= vars_v_grid(rs.subrange(0, i)) + vars_v_seq(rs[i]),
    decreases i,
{
    if i == 0 {
        let s1 = rs.subrange(0, 1);
        assert(s1[0] == rs[0]);
        assert(s1.drop_first() =~= Seq::empty());
        assert(rs.subrange(0, 0) =~= Seq::<Seq<ExprV>>::empty());
    } else {
        let tail = rs.drop_first();
        assert(rs.subrange(0, i + 1).drop_first() =~= tail.subrange(0, i));
        assert(rs.subrange(0, i).drop_first() =~= tail.subrange(0, i - 1));
        lemma_vars_grid_snoc(tail, i - 1);
        assert(rs.subrange(0, i + 1)[0] == rs[0]);
        assert(rs.subrange(0, i)[0] == rs[0]);
        assert(tail[i - 1] == rs[i]);
    }
}

/// The set of identifier views held by a vector of strings.
pub open spec fn strs_set(v: Seq<String>) -> Set<Seq<char>> {
    Set::new(|x: Seq<char>| exists|i: int| 0 <= i < v.len() && (#[trigger] v[i])@ == x)
}

/// No two entries hold the same identifier.
pub open spec fn no_dup_str(v: Seq<String>) -> bool {
    forall|i: int, j: int| 0 <= i < j < v.len() ==> (#[trigger] v[i])@ != (#[trigger] v[j])@
}

fn push_unique(out: &mut Vec<String>, s: &String)
    requires
        no_dup_str(old(out)@),
    ensures
        no_dup_str(final(out)@),
        strs_set(final(out)@) == strs_set(old(out)@).insert(s@),
{
    let mut i: usize = 0;
    while i < out.len()
        invariant
            0 <= i <= out@.len(),
            *out == *old(out),
            no_dup_str(out@),
            forall|j: int| 0 <= j < i ==> (#[trigger] out@[j])@ != s@,
        decreases out@.len() - i,
    {
        if out[i].eq(s) {
            proof {
                assert(out@[i as int]@ == s@);
                assert(strs_set(out@).contains(s@));
                assert(strs_set(out@).insert(s@) =~= strs_set(out@));
            }
            return ;
        }
        i = i + 1;
    }
    out.push(s.clone());
    proof {
        let v = out@;
        let o = old(out)@;
        assert(forall|j: int| 0 <= j < o.len() ==> v[j] == o[j]);
        assert(v[o.len() as int]@ == s@);
        assert(no_dup_str(v)) by {
            assert forall|x: int, y: int| 0 <= x < y < v.len() implies v[x]@ != v[y]@ by {
                if y < o.len() {
                } else {
                    assert(v[y]@ == s@);
                    assert(v[x]@ != s@);
                }
            }
        }
        assert(strs_set(v) =~= strs_set(o).insert(s@)) by {
            assert forall|x: Seq<char>| strs_set(v).contains(x) implies strs_set(o).insert(
                s@,
            ).contains(x) by {
                let i = choose|i: int| 0 <= i < v.len() && v[i]@ == x;
                if i < o.len() {
                    assert(o[i]@ == x);
                }
            }
            assert forall|x: Seq<char>| strs_set(o).insert(s@).contains(x) implies strs_set(
                v,
            ).contains(x) by {
                if x == s@ {
                    assert(v[o.len() as int]@ == x);
                } else {
                    let i = choose|i: int| 0 <= i < o.len() && o[i]@ == x;
                    assert(v[i]@ == x);
                }
            }
        }
    }
}

fn collect_vars_vec(es: &Vec<Expression>, out: &mut Vec<String>)
    requires
        no_dup_str(old(out)@),
    ensures
        no_dup_str(final(out)@),
        strs_set(final(out)@) == strs_set(old(out)@) + vars_v_seq(expr_v_seq(es@)),
    decreases *es,
{
    let ghost esv = expr_v_seq(es@);
    proof {
        lemma_expr_v_seq_len(es@);
    }
    let mut i: usize = 0;
    proof {
        assert(esv.subrange(0, 0) =~= Seq::empty());
        assert(strs_set(out@) + vars_v_seq(esv.subrange(0, 0)) =~= strs_set(out@));
    }
    while i < es.len()
        invariant
            0 <= i <= es@.len(),
            esv == expr_v_seq(es@),
            esv.len() == es@.len(),
            no_dup_str(out@),
            strs_set(out@) == strs_set(old(out)@) + vars_v_seq(esv.subrange(0, i as int)),
        decreases es@.len() - i,
    {
        proof {
            assert(decreases_to!(*es => es@));
            assert(decreases_to!(es@ => es@[i as int]));
        }
        let ghost before = out@;
        collect_vars(&es[i], out);
        proof {
            lemma_expr_v_seq_index(es@, i as int);
            lemma_vars_seq_snoc(esv, i as int);
            assert(strs_set(out@) =~= strs_set(old(out)@) + vars_v_seq(
                esv.subrange(0, i as int + 1),
            ));
        }
        i = i + 1;
    }
    proof {
        assert(esv.subrange(0, esv.len() as int) =~= esv);
    }
}

fn collect_vars(e: &Expression, out: &mut Vec<String>)
    requires
        no_dup_str(old(out)@),
    ensures
        no_dup_str(final(out)@),
        strs_set(final(out)@) == strs_set(old(out)@) + vars_v(e@),
    decreases *e,
{
    match e {
        Expression::Variable(s) => {
            push_unique(out, s);
            proof {
                assert(strs_set(out@) =~= strs_set(old(out)@) + vars_v(e@));
            }
        },
        Expression::Function(f, args) => {
            proof {
                assert(decreases_to!(*e => e->Function_0));
                assert(decreases_to!(*e => e->Function_1));
                assert(e->Function_1 == *args);
            }
            collect_vars(f, out);
            collect_vars_vec(args, out);
            proof {
                assert(strs_set(out@) =~= strs_set(old(out)@) + vars_v(e@));
            }
        },
        Expression::Integer(_) => {
            proof {
                assert(strs_set(out@) =~= strs_set(old(out)@) + vars_v(e@));
            }
        },
        Expression::Rational(_, _) => {
            proof {
                assert(strs_set(out@) =~= strs_set(old(out)@) + vars_v(e@));
            }
        },
        Expression::Complex(_, _) => {
            proof {
                assert(strs_set(out@) =~= strs_set(old(out)@) + vars_v(e@));
            }
        },
        Expression::Boolean(_) => {
            proof {
                assert(strs_set(out@) =~= strs_set(old(out)@) + vars_v(e@));
            }
        },
        Expression::FunctionValue(_, _) => {
            proof {
                assert(strs_set(out@) =~= strs_set(old(out)@) + vars_v(e@));
            }
        },
        Expression::Vector(es) => {
            proof {
                assert(decreases_to!(*e => e->Vector_0));
                assert(e->Vector_0 == *es);
            }
            collect_vars_vec(es, out);
        },
        Expression::Matrix(m) => {
            proof {
                assert(decreases_to!(*e => e->Matrix_0));
                assert(e->Matrix_0 == *m);
                assert(decreases_to!(*m => m.entries));
                lemma_expr_v_rows_len(m.entries@);
            }
            let ghost grid = expr_v_rows(m.entries@);
            let mut r: usize = 0;
            proof {
                assert(grid.subrange(0, 0) =~= Seq::empty());
                assert(strs_set(out@) + vars_v_grid(grid.subrange(0, 0)) =~= strs_set(out@));
            }
            while r < m.entries.len()
                invariant
                    0 <= r <= m.entries@.len(),
                    *e == Expression::Matrix(*m),
                    grid == expr_v_rows(m.entries@),
                    grid.len() == m.entries@.len(),
                    no_dup_str(out@),
                    strs_set(out@) == strs_set(old(out)@) + vars_v_grid(
                        grid.subrange(0, r as int),
                    ),
                decreases m.entries@.len() - r,
            {
                proof {
                    assert(decreases_to!(*e => e->Matrix_0));
                    assert(e->Matrix_0 == *m);
                    assert(decreases_to!(*m => m.entries));
                    assert(decreases_to!(m.entries => m.entries@));
                    assert(decreases_to!(m.entries@ => m.entries@[r as int]));
                }
                collect_vars_vec(&m.entries[r], out);
                proof {
                    lemma_expr_v_rows_index(m.entries@, r as int);
                    lemma_vars_grid_snoc(grid, r as int);
                    assert(strs_set(out@) =~= strs_set(old(out)@) + vars_v_grid(
                        grid.subrange(0, r as int + 1),
                    ));
                }
                r = r + 1;
            }
            proof {
                assert(grid.subrange(0, grid.len() as int) =~= grid);
                assert(vars_v(e@) == vars_v_grid(grid));
            }
        },
        Expression::Negation(a) => {
            collect_vars(a, out);
        },
        Expression::Not(a) => {
            collect_vars(a, out);
        },
        Expression::Sum(a, b) => {
            collect_vars(a, out);
            collect_vars(b, out);
            proof {
                assert(strs_set(out@) =~= strs_set(old(out)@) + vars_v(e@));
            }
        },
        Expression::Difference(a, b) => {
            collect_vars(a, out);
            collect_vars(b, out);
            proof {
                assert(strs_set(out@) =~= strs_set(old(out)@) + vars_v(e@));
            }
        },
        Expression::Product(a, b) => {
            collect_vars(a, out);
            collect_vars(b, out);
            proof {
                assert(strs_set(out@) =~= strs_set(old(out)@) + vars_v(e@));
            }
        },
        Expression::Quotient(a, b) => {
            collect_vars(a, out);
            collect_vars(b, out);
            proof {
                assert(strs_set(out@) =~= strs_set(old(out)@) + vars_v(e@));
            }
        },
        Expression::Remainder(a, b) => {
            collect_vars(a, out);
            collect_vars(b, out);
            proof {
                assert(strs_set(out@) =~= strs_set(old(out)@) + vars_v(e@));
            }
        },
        Expression::Power(a, b) => {
            collect_vars(a, out);
            collect_vars(b, out);
            proof {
                assert(strs_set(out@) =~= strs_set(old(out)@) + vars_v(e@));
            }
        },
        Expression::Equal(a, b) => {
            collect_vars(a, out);
            collect_vars(b, out);
            proof {
                assert(strs_set(out@) =~= strs_set(old(out)@) + vars_v(e@));
            }
        },
        Expression::NotEqual(a, b) => {
            collect_vars(a, out);
            collect_vars(b, out);
            proof {
                assert(strs_set(out@) =~= strs_set(old(out)@) + vars_v(e@));
            }
        },
        Expression::LessThan(a, b) => {
            collect_vars(a, out);
            collect_vars(b, out);
            proof {
                assert(strs_set(out@) =~= strs_set(old(out)@) + vars_v(e@));
            }
        },
        Expression::LessThanOrEqual(a, b) => {
            collect_vars(a, out);
            collect_vars(b, out);
            proof {
                assert(strs_set(out@) =~= strs_set(old(out)@) + vars_v(e@));
            }
        },
        Expression::GreaterThan(a, b) => {
            collect_vars(a, out);
            collect_vars(b, out);
            proof {
                assert(strs_set(out@) =~= strs_set(old(out)@) + vars_v(e@));
            }
        },
        Expression::GreaterThanOrEqual(a, b) => {
            collect_vars(a, out);
            collect_vars(b, out);
            proof {
                assert(strs_set(out@) =~= strs_set(old(out)@) + vars_v(e@));
            }
        },
        Expression::And(a, b) => {
            collect_vars(a, out);
            collect_vars(b, out);
            proof {
                assert(strs_set(out@) =~= strs_set(old(out)@) + vars_v(e@));
            }
        },
        Expression::Or(a, b) => {
            collect_vars(a, out);
            collect_vars(b, out);
            proof {
                assert(strs_set(out@) =~= strs_set(old(out)@) + vars_v(e@));
            }
        },
    }
}

impl Expression {
    /// The identifiers of the variables that occur in the expression,
    /// each once, in order of first occurrence.
    pub fn variables(&self) -> (r: Vec<String>)
        ensures
            no_dup_str(r@),
            strs_set(r@) == vars_v(self@),
    {
        let mut out: Vec<String> = Vec::new();
        proof {
            assert(strs_set(out@) =~= Set::empty());
        }
        collect_vars(self, &mut out);
        proof {
            assert(strs_set(out@) =~= vars_v(self@));
        }
        out
    }
}


// ------------------------------------------------------------------
// Structural equality (two trees are equal iff their views match).
// ------------------------------------------------------------------

fn strings_eq(a: &Vec<String>, b: &Vec<String>) -> (r: bool)
    ensures
        r == (a@.map_values(|p: String| p@) == b@.map_values(|p: String| p@)),
{
    let ghost av = a@.map_values(|p: String| p@);
    let ghost bv = b@.map_values(|p: String| p@);
    if a.len() != b.len() {
        proof {
            assert(av.len() != bv.len());
        }
        return false;
    }
    let mut i: usize = 0;
    while i < a.len()
        invariant
            0 <= i <= a@.len(),
            a@.len() == b@.len(),
            av == a@.map_values(|p: String| p@),
            bv == b@.map_values(|p: String| p@),
            forall|j: int| 0 <= j < i ==> (#[trigger] a@[j])@ == b@[j]@,
        decreases a@.len() - i,
    {
        if !a[i].eq(&b[i]) {
            proof {
                assert(av[i as int] != bv[i as int]);
            }
            return false;
        }
        i = i + 1;
    }
    proof {
        assert(av =~= bv);
    }
    true
}

fn exprs_eq(a: &Vec<Expression>, b: &Vec<Expression>) -> (r: bool)
    ensures
        r == (expr_v_seq(a@) == expr_v_seq(b@)),
    decreases *a,
{
    proof {
        lemma_expr_v_seq_len(a@);
        lemma_expr_v_seq_len(b@);
    }
    if a.len() != b.len() {
        return false;
    }
    let mut i: usize = 0;
    while i < a.len()
        invariant
            0 <= i <= a@.len(),
            a@.len() == b@.len(),
            forall|j: int| 0 <= j < i ==> expr_v(#[trigger] a@[j]) == expr_v(b@[j]),
        decreases a@.len() - i,
    {
        proof {
            assert(decreases_to!(*a => a@));
            assert(decreases_to!(a@ => a@[i as int]));
        }
        if !expr_eq(&a[i], &b[i]) {
            proof {
                lemma_expr_v_seq_index(a@, i as int);
                lemma_expr_v_seq_index(b@, i as int);
            }
            return false;
        }
        i = i + 1;
    }
    proof {
        lemma_expr_v_seq_congruence(a@, b@);
    }
    true
}

fn rows_eq(a: &Vec<Vec<Expression>>, b: &Vec<Vec<Expression>>) -> (r: bool)
    ensures
        r == (expr_v_rows(a@) == expr_v_rows(b@)),
    decreases *a,
{
    proof {
        lemma_expr_v_rows_len(a@);
        lemma_expr_v_rows_len(b@);
    }
    if a.len() != b.len() {
        return false;
    }
    let mut i: usize = 0;
    while i < a.len()
        invariant
            0 <= i <= a@.len(),
            a@.len() == b@.len(),
            forall|j: int| 0 <= j < i ==> expr_v_seq((#[trigger] a@[j])@) == expr_v_seq(b@[j]@),
        decreases a@.len() - i,
    {
        proof {
            assert(decreases_to!(*a => a@));
            assert(decreases_to!(a@ => a@[i as int]));
        }
        if !exprs_eq(&a[i], &b[i]) {
            proof {
                lemma_expr_v_rows_index(a@, i as int);
                lemma_expr_v_rows_index(b@, i as int);
            }
            return false;
        }
        i = i + 1;
    }
    proof {
        lemma_expr_v_rows_congruence(a@, b@);
    }
    true
}

fn complexes_eq(a: &Complex, b: &Complex) -> (r: bool)
    ensures
        r == (a.view_c() == b.view_c()),
{
    let re = rat_pair_eq(&a.re, &b.re);
    let im = rat_pair_eq(&a.im, &b.im);
    re && im
}

/// Structural equality of two expression trees: their views are equal.
pub fn expr_eq(a: &Expression, b: &Expression) -> (r: bool)
    ensures
        r == (a@ == b@),
    decreases *a,
{
    match (a, b) {
        (Expression::Variable(x), Expression::Variable(y)) => x.eq(y),
        (Expression::Function(f1, a1), Expression::Function(f2, a2)) => {
            proof {
                assert(decreases_to!(*a => a->Function_0));
                assert(decreases_to!(*a => a->Function_1));
                assert(a->Function_1 == *a1);
            }
            expr_eq(f1, f2) && exprs_eq(a1, a2)
        },
        (Expression::Integer(x), Expression::Integer(y)) => big_eq(x, y),
        (Expression::Rational(x, rx), Expression::Rational(y, ry)) => rat_pair_eq(x, y) && rx
            == ry,
        (Expression::Complex(x, rx), Expression::Complex(y, ry)) => complexes_eq(x, y) && rx
            == ry,
        (Expression::Vector(x), Expression::Vector(y)) => {
            proof {
                assert(decreases_to!(*a => a->Vector_0));
                assert(a->Vector_0 == *x);
            }
            exprs_eq(x, y)
        },
        (Expression::Matrix(x), Expression::Matrix(y)) => {
            proof {
                assert(decreases_to!(*a => a->Matrix_0));
                assert(a->Matrix_0 == *x);
                assert(decreases_to!(*x => x.entries));
            }
            x.nrows == y.nrows && x.ncols == y.ncols && rows_eq(&x.entries, &y.entries)
        },
        (Expression::Boolean(x), Expression::Boolean(y)) => x == y,
        (Expression::FunctionValue(n1, b1), Expression::FunctionValue(n2, b2)) => {
            let bodies = match (b1, b2) {
                (FunctionBody::Builtin(x), FunctionBody::Builtin(y)) => x == y,
                (
                    FunctionBody::UserDefined(p1, e1),
                    FunctionBody::UserDefined(p2, e2),
                ) => {
                    proof {
                        assert(decreases_to!(*a => a->FunctionValue_1));
                        assert(a->FunctionValue_1 == *b1);
                        assert(decreases_to!(*b1 => b1->UserDefined_1));
                        assert(b1->UserDefined_1 == *e1);
                    }
                    strings_eq(p1, p2) && expr_eq(e1, e2)
                },
                _ => false,
            };
            n1.eq(n2) && bodies
        },
        (Expression::Negation(x), Expression::Negation(y)) => expr_eq(x, y),
        (Expression::Not(x), Expression::Not(y)) => expr_eq(x, y),
        (Expression::Sum(x1, y1), Expression::Sum(x2, y2)) => expr_eq(x1, x2) && expr_eq(y1, y2),
        (Expression::Difference(x1, y1), Expression::Difference(x2, y2)) => expr_eq(x1, x2)
            && expr_eq(y1, y2),
        (Expression::Product(x1, y1), Expression::Product(x2, y2)) => expr_eq(x1, x2) && expr_eq(
            y1,
            y2,
        ),
        (Expression::Quotient(x1, y1), Expression::Quotient(x2, y2)) => expr_eq(x1, x2)
            && expr_eq(y1, y2),
        (Expression::Remainder(x1, y1), Expression::Remainder(x2, y2)) => expr_eq(x1, x2)
            && expr_eq(y1, y2),
        (Expression::Power(x1, y1), Expression::Power(x2, y2)) => expr_eq(x1, x2) && expr_eq(
            y1,
            y2,
        ),
        (Expression::Equal(x1, y1), Expression::Equal(x2, y2)) => expr_eq(x1, x2) && expr_eq(
            y1,
            y2,
        ),
        (Expression::NotEqual(x1, y1), Expression::NotEqual(x2, y2)) => expr_eq(x1, x2)
            && expr_eq(y1, y2),
        (Expression::LessThan(x1, y1), Expression::LessThan(x2, y2)) => expr_eq(x1, x2)
            && expr_eq(y1, y2),
        (Expression::LessThanOrEqual(x1, y1), Expression::LessThanOrEqual(x2, y2)) => expr_eq(
            x1,
            x2,
        ) && expr_eq(y1, y2),
        (Expression::GreaterThan(x1, y1), Expression::GreaterThan(x2, y2)) => expr_eq(x1, x2)
            && expr_eq(y1, y2),
        (Expression::GreaterThanOrEqual(x1, y1), Expression::GreaterThanOrEqual(x2, y2)) =>
            expr_eq(x1, x2) && expr_eq(y1, y2),
        (Expression::And(x1, y1), Expression::And(x2, y2)) => expr_eq(x1, x2) && expr_eq(y1, y2),
        (Expression::Or(x1, y1), Expression::Or(x2, y2)) => expr_eq(x1, x2) && expr_eq(y1, y2),
        _ => false,
    }
}

impl PartialEq for Expression {
    fn eq(&self, other: &Expression) -> (r: bool) {
        expr_eq(self, other)
    }
}

impl Eq for Expression {
}

impl vstd::std_specs::cmp::PartialEqSpecImpl for Expression {
    open spec fn obeys_eq_spec() -> bool {
        true
    }

    open spec fn eq_spec(&self, other: &Expression) -> bool {
        self@ == other@
    }
}


// ------------------------------------------------------------------
// Exact complex arithmetic.
// ------------------------------------------------------------------

impl Complex {
    pub fn zero() -> (r: Complex)
        ensures
            r.view_c() == c_zero_v(),
            c_wf(r.view_c()),
    {
        Complex { re: rat_zero(), im: rat_zero() }
    }

    pub fn one() -> (r: Complex)
        ensures
            r.view_c() == c_one_v(),
            c_wf(r.view_c()),
    {
        Complex { re: rat_one(), im: rat_zero() }
    }

    pub fn is_zero(&self) -> (r: bool)
        ensures
            r == c_is_zero_v(self.view_c()),
    {
        rat_is_zero(&self.re) && rat_is_zero(&self.im)
    }

    /// Exact complex addition, componentwise.
    pub fn add(&self, o: &Complex) -> (r: Complex)
        requires
            c_wf(self.view_c()),
            c_wf(o.view_c()),
        ensures
            r.view_c() == c_add_v(self.view_c(), o.view_c()),
            c_wf(r.view_c()),
    {
        proof {
            lemma_c_add_wf(self.view_c(), o.view_c());
        }
        Complex { re: rat_add(&self.re, &o.re), im: rat_add(&self.im, &o.im) }
    }

    /// Exact complex subtraction, componentwise.
    pub fn sub(&self, o: &Complex) -> (r: Complex)
        requires
            c_wf(self.view_c()),
            c_wf(o.view_c()),
        ensures
            r.view_c() == c_sub_v(self.view_c(), o.view_c()),
            c_wf(r.view_c()),
    {
        proof {
            lemma_c_sub_wf(self.view_c(), o.view_c());
        }
        Complex { re: rat_sub(&self.re, &o.re), im: rat_sub(&self.im, &o.im) }
    }

    /// Exact complex negation.
    pub fn negate(&self) -> (r: Complex)
        requires
            c_wf(self.view_c()),
        ensures
            r.view_c() == c_neg_v(self.view_c()),
            c_wf(r.view_c()),
    {
        Complex { re: rat_neg(&self.re), im: rat_neg(&self.im) }
    }

    /// Exact complex multiplication: `(ac - bd) + (ad + bc)i`.
    pub fn mul(&self, o: &Complex) -> (r: Complex)
        requires
            c_wf(self.view_c()),
            c_wf(o.view_c()),
        ensures
            r.view_c() == c_mul_v(self.view_c(), o.view_c()),
            c_wf(r.view_c()),
    {
        proof {
            lemma_c_mul_wf(self.view_c(), o.view_c());
            lemma_rat_mul_wf(rat_v(self.re), rat_v(o.re));
            lemma_rat_mul_wf(rat_v(self.im), rat_v(o.im));
            lemma_rat_mul_wf(rat_v(self.re), rat_v(o.im));
            lemma_rat_mul_wf(rat_v(self.im), rat_v(o.re));
        }
        let ac = rat_mul(&self.re, &o.re);
        let bd = rat_mul(&self.im, &o.im);
        let ad = rat_mul(&self.re, &o.im);
        let bc = rat_mul(&self.im, &o.re);
        Complex { re: rat_sub(&ac, &bd), im: rat_add(&ad, &bc) }
    }

    /// Exact complex division by a non-zero divisor, via the conjugate
    /// over the squared absolute value.
    pub fn div(&self, o: &Complex) -> (r: Complex)
        requires
            c_wf(self.view_c()),
            c_wf(o.view_c()),
            !c_is_zero_v(o.view_c()),
        ensures
            r.view_c() == c_div_v(self.view_c(), o.view_c()),
            c_wf(r.view_c()),
    {
        proof {
            lemma_c_div_wf(self.view_c(), o.view_c());
            lemma_c_norm_sq_nonzero(o.view_c());
            lemma_rat_mul_wf(rat_v(self.re), rat_v(o.re));
            lemma_rat_mul_wf(rat_v(self.im), rat_v(o.im));
            lemma_rat_mul_wf(rat_v(self.im), rat_v(o.re));
            lemma_rat_mul_wf(rat_v(self.re), rat_v(o.im));
            lemma_rat_mul_wf(rat_v(o.re), rat_v(o.re));
            lemma_rat_mul_wf(rat_v(o.im), rat_v(o.im));
            lemma_rat_add_wf(
                crate::number::rat_mul_v(rat_v(self.re), rat_v(o.re)),
                crate::number::rat_mul_v(rat_v(self.im), rat_v(o.im)),
            );
            lemma_rat_sub_wf(
                crate::number::rat_mul_v(rat_v(self.im), rat_v(o.re)),
                crate::number::rat_mul_v(rat_v(self.re), rat_v(o.im)),
            );
        }
        let nsq = rat_add(&rat_mul(&o.re, &o.re), &rat_mul(&o.im, &o.im));
        let re_num = rat_add(&rat_mul(&self.re, &o.re), &rat_mul(&self.im, &o.im));
        let im_num = rat_sub(&rat_mul(&self.im, &o.re), &rat_mul(&self.re, &o.im));
        Complex { re: rat_div(&re_num, &nsq), im: rat_div(&im_num, &nsq) }
    }

    /// Exact value equality of two complex numbers.
    pub fn value_eq(&self, o: &Complex) -> (r: bool)
        ensures
            r == crate::number::c_eq_v(self.view_c(), o.view_c()),
    {
        rat_value_eq(&self.re, &o.re) && rat_value_eq(&self.im, &o.im)
    }
}

} // verus!
