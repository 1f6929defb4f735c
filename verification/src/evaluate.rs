//! The evaluator: best-effort simplification of an expression under a
//! binding context.  Children are evaluated first; a parent folds to an
//! exact literal when its children's evaluability classes allow it and
//! is otherwise rebuilt symbolically.  Errors are reserved for genuinely
//! invalid operations: wrong arity, wrong shape, division by exact zero.
//! `eval_s` is the mathematical definition of evaluation; `evaluate` is
//! proved to return exactly what it describes.
//!
//! Evaluation expands bound variables and invokes function values; a
//! fixed recursion-depth budget bounds those expansions, so that a
//! context binding a name to itself fails with a depth error instead of
//! running forever (expressions themselves are finite and cost no budget).

use vstd::prelude::*;
use crate::expression::{
    ClassV, ExprV, Expression, FunV, FunctionBody, MatV, Matrix, RationalRepresentation,
    class_v, expr_v_seq, expr_v_rows, merge_repr, wf_v, wf_v_seq, wf_v_grid,
};
use crate::number::{
    c_add_v, c_div_v, c_eq_v, c_is_zero_v, c_mul_v, c_neg_v, c_one_v, c_pow_v, c_recip_v,
    c_sub_v, c_wf, c_zero_v, rat_eq_v, rat_lt_v, rat_rem_v, rat_zero_v, ComplexV, RatV,
};

verus! {

/// The recursion-depth budget for variable expansion and function
/// invocation.
pub const EVAL_DEPTH_LIMIT: u64 = 256;

/// An evaluation error, carrying the offending (sub-)expression.
#[derive(Debug)]
pub enum Error {
    /// A function value was called with the wrong number of arguments.
    InvalidNumberOfArguments {
        expression: Expression,
        min_number: usize,
        max_number: usize,
        given_number: usize,
    },
    /// A built-in received a concrete argument of the wrong shape.
    InvalidArgument { expression: Expression, argument: Expression },
    /// Division or remainder by an exact zero.
    DivisionByZero { expression: Expression },
    /// A registry entry that is intentionally not implemented.
    NotImplemented { expression: Expression },
    /// The recursion-depth budget was exhausted.
    RecursionDepthExceeded { expression: Expression },
}

/// The mathematical view of an evaluation error.
pub enum ErrV {
    InvalidNumberOfArguments { expression: ExprV, min_number: nat, max_number: nat, given_number: nat },
    InvalidArgument { expression: ExprV, argument: ExprV },
    DivisionByZero { expression: ExprV },
    NotImplemented { expression: ExprV },
    RecursionDepthExceeded { expression: ExprV },
}

impl View for Error {
    type V = ErrV;

    open spec fn view(&self) -> ErrV {
        match self {
            Error::InvalidNumberOfArguments { expression, min_number, max_number, given_number }
                => ErrV::InvalidNumberOfArguments {
                expression: expression@,
                min_number: *min_number as nat,
                max_number: *max_number as nat,
                given_number: *given_number as nat,
            },
            Error::InvalidArgument { expression, argument } => ErrV::InvalidArgument {
                expression: expression@,
                argument: argument@,
            },
            Error::DivisionByZero { expression } => ErrV::DivisionByZero {
                expression: expression@,
            },
            Error::NotImplemented { expression } => ErrV::NotImplemented {
                expression: expression@,
            },
            Error::RecursionDepthExceeded { expression } => ErrV::RecursionDepthExceeded {
                expression: expression@,
            },
        }
    }
}

// ------------------------------------------------------------------
// The binding context.
// ------------------------------------------------------------------

/// A name-to-expression mapping used to resolve variables and function
/// values during evaluation.  The evaluator treats it as a read-only
/// snapshot; a later insertion of the same name shadows an earlier one.
pub struct Context {
    entries: Vec<(String, Expression)>,
}

pub open spec fn ctx_map(entries: Seq<(String, Expression)>) -> Map<Seq<char>, ExprV>
    decreases entries,
{
    if entries.len() == 0 {
        Map::empty()
    } else {
        ctx_map(entries.drop_last()).insert(entries.last().0@, entries.last().1@)
    }
}

impl View for Context {
    type V = Map<Seq<char>, ExprV>;

    closed spec fn view(&self) -> Map<Seq<char>, ExprV> {
        ctx_map(self.entries@)
    }
}

impl Context {
    /// Every expression the context holds is well-formed.
    pub closed spec fn inv(&self) -> bool {
        forall|i: int| 0 <= i < self.entries@.len() ==> wf_v((#[trigger] self.entries@[i]).1@)
    }

    /// An empty context.
    pub fn new() -> (r: Context)
        ensures
            r@ == Map::<Seq<char>, ExprV>::empty(),
            r.inv(),
    {
        let r = Context { entries: Vec::new() };
        proof {
            assert(r@ =~= Map::<Seq<char>, ExprV>::empty());
        }
        r
    }

    /// Binds `name` to `value`, shadowing any earlier binding.
    pub fn insert(&mut self, name: String, value: Expression)
        requires
            wf_v(value@),
        ensures
            final(self)@ == old(self)@.insert(name@, value@),
            old(self).inv() ==> final(self).inv(),
    {
        self.entries.push((name, value));
        proof {
            assert(self.entries@.drop_last() =~= old(self).entries@);
        }
    }

    /// Looks up the expression bound to `name`, if any.
    pub fn get(&self, name: &String) -> (r: Option<&Expression>)
        ensures
            match r {
                Some(e) => self@.dom().contains(name@) && e@ == self@[name@] && (self.inv()
                    ==> wf_v(e@)),
                None => !self@.dom().contains(name@),
            },
    {
        let mut i: usize = self.entries.len();
        proof {
            assert(self.entries@.subrange(0, self.entries@.len() as int) =~= self.entries@);
        }
        while i > 0
            invariant
                0 <= i <= self.entries@.len(),
                ctx_map(self.entries@).contains_key(name@) == ctx_map(
                    self.entries@.subrange(0, i as int),
                ).contains_key(name@),
                ctx_map(self.entries@).contains_key(name@) ==> ctx_map(
                    self.entries@,
                )[name@] == ctx_map(self.entries@.subrange(0, i as int))[name@],
            decreases i,
        {
            i = i - 1;
            let ghost pre = self.entries@.subrange(0, i as int + 1);
            proof {
                assert(pre.drop_last() =~= self.entries@.subrange(0, i as int));
                assert(pre.last() == self.entries@[i as int]);
            }
            if self.entries[i].0.eq(name) {
                return Some(&self.entries[i].1);
            }
        }
        proof {
            assert(self.entries@.subrange(0, 0) =~= Seq::<(String, Expression)>::empty());
        }
        None
    }

}

// ------------------------------------------------------------------
// Numeric views of evaluated children.
// ------------------------------------------------------------------

/// The exact complex value and representation of a numeric literal.
pub open spec fn as_num(e: ExprV) -> Option<(ComplexV, RationalRepresentation)> {
    match e {
        ExprV::Integer(n) => Some(
            ((ComplexV { re: RatV { n: n, d: 1 }, im: rat_zero_v() }), RationalRepresentation::Fraction),
        ),
        ExprV::Rational(x, rep) => Some(((ComplexV { re: x, im: rat_zero_v() }), rep)),
        ExprV::Complex(z, rep) => Some((z, rep)),
        _ => None,
    }
}

/// The literal a computed number folds to: an integer when exact, a
/// rational when real, a complex number otherwise.
pub open spec fn demote(z: ComplexV, rep: RationalRepresentation) -> ExprV {
    if z.im.n == 0 {
        if z.re.d == 1 {
            ExprV::Integer(z.re.n)
        } else {
            ExprV::Rational(z.re, rep)
        }
    } else {
        ExprV::Complex(z, rep)
    }
}

pub open spec fn seq_nums(es: Seq<ExprV>) -> Option<Seq<(ComplexV, RationalRepresentation)>>
    decreases es,
{
    if es.len() == 0 {
        Some(Seq::empty())
    } else {
        match (as_num(es[0]), seq_nums(es.drop_first())) {
            (Some(h), Some(t)) => Some(seq![h] + t),
            _ => None,
        }
    }
}

pub open spec fn grid_nums(g: Seq<Seq<ExprV>>) -> Option<
    Seq<Seq<(ComplexV, RationalRepresentation)>>,
>
    decreases g,
{
    if g.len() == 0 {
        Some(Seq::empty())
    } else {
        match (seq_nums(g[0]), grid_nums(g.drop_first())) {
            (Some(h), Some(t)) => Some(seq![h] + t),
            _ => None,
        }
    }
}

/// A fully concrete matrix value: a matrix or column vector whose every
/// element is a number, with its dimensions.
pub open spec fn as_con_mat(e: ExprV) -> Option<
    (nat, nat, Seq<Seq<(ComplexV, RationalRepresentation)>>),
> {
    match e {
        ExprV::Matrix(m) => match grid_nums(m.grid) {
            Some(ns) => Some((m.rows, m.cols, ns)),
            None => None,
        },
        ExprV::Vector(es) => match seq_nums(es) {
            Some(ns) => Some((es.len(), 1, Seq::new(ns.len(), |i: int| seq![ns[i]]))),
            None => None,
        },
        _ => None,
    }
}

pub open spec fn num_add(
    a: (ComplexV, RationalRepresentation),
    b: (ComplexV, RationalRepresentation),
) -> ExprV {
    demote(c_add_v(a.0, b.0), merge_repr(a.1, b.1))
}

pub open spec fn num_sub(
    a: (ComplexV, RationalRepresentation),
    b: (ComplexV, RationalRepresentation),
) -> ExprV {
    demote(c_sub_v(a.0, b.0), merge_repr(a.1, b.1))
}

pub open spec fn num_mul(
    a: (ComplexV, RationalRepresentation),
    b: (ComplexV, RationalRepresentation),
) -> ExprV {
    demote(c_mul_v(a.0, b.0), merge_repr(a.1, b.1))
}

/// Elementwise combination of two equally-sized grids.
pub open spec fn ew_grid(
    a: Seq<Seq<(ComplexV, RationalRepresentation)>>,
    b: Seq<Seq<(ComplexV, RationalRepresentation)>>,
    sub: bool,
) -> Seq<Seq<ExprV>> {
    Seq::new(
        a.len(),
        |i: int| Seq::new(
            a[i].len(),
            |j: int| if sub {
                num_sub(a[i][j], b[i][j])
            } else {
                num_add(a[i][j], b[i][j])
            },
        ),
    )
}

pub open spec fn ew_seq(
    a: Seq<(ComplexV, RationalRepresentation)>,
    b: Seq<(ComplexV, RationalRepresentation)>,
    sub: bool,
) -> Seq<ExprV> {
    Seq::new(
        a.len(),
        |i: int| if sub {
            num_sub(a[i], b[i])
        } else {
            num_add(a[i], b[i])
        },
    )
}

/// The value of a dot product after its first `k` terms.
pub open spec fn dot_prefix(
    a: Seq<(ComplexV, RationalRepresentation)>,
    b: Seq<(ComplexV, RationalRepresentation)>,
    k: nat,
) -> (ComplexV, RationalRepresentation)
    decreases k,
{
    if k == 0 {
        (c_zero_v(), RationalRepresentation::Fraction)
    } else {
        let p = dot_prefix(a, b, (k - 1) as nat);
        let t = (
            c_mul_v(a[k - 1].0, b[k - 1].0),
            merge_repr(a[k - 1].1, b[k - 1].1),
        );
        (c_add_v(p.0, t.0), merge_repr(p.1, t.1))
    }
}

/// Standard matrix multiplication of two concrete numeric grids.
pub open spec fn mat_mul_grid(
    a: Seq<Seq<(ComplexV, RationalRepresentation)>>,
    b: Seq<Seq<(ComplexV, RationalRepresentation)>>,
    inner: nat,
    bcols: nat,
) -> Seq<Seq<ExprV>> {
    Seq::new(
        a.len(),
        |i: int| Seq::new(
            bcols,
            |j: int| {
                let col = Seq::new(b.len(), |k: int| b[k][j]);
                let d = dot_prefix(a[i], col, inner);
                demote(d.0, d.1)
            },
        ),
    )
}

/// Scalar multiplication over a sequence of numbers.
pub open spec fn scale_seq(
    k: (ComplexV, RationalRepresentation),
    es: Seq<(ComplexV, RationalRepresentation)>,
) -> Seq<ExprV> {
    Seq::new(es.len(), |i: int| num_mul(k, es[i]))
}

pub open spec fn scale_grid(
    k: (ComplexV, RationalRepresentation),
    g: Seq<Seq<(ComplexV, RationalRepresentation)>>,
) -> Seq<Seq<ExprV>> {
    Seq::new(g.len(), |i: int| scale_seq(k, g[i]))
}

pub open spec fn neg_seq(es: Seq<(ComplexV, RationalRepresentation)>) -> Seq<ExprV> {
    Seq::new(es.len(), |i: int| demote(c_neg_v(es[i].0), es[i].1))
}

pub open spec fn neg_grid(g: Seq<Seq<(ComplexV, RationalRepresentation)>>) -> Seq<Seq<ExprV>> {
    Seq::new(g.len(), |i: int| neg_seq(g[i]))
}

// ------------------------------------------------------------------
// Folding rules for single operator nodes over evaluated children.
// ------------------------------------------------------------------

pub open spec fn fold_negation(a: ExprV) -> ExprV {
    match as_num(a) {
        Some((z, rep)) => demote(c_neg_v(z), rep),
        None => match a {
            ExprV::Vector(es) => match seq_nums(es) {
                Some(ns) => ExprV::Vector(neg_seq(ns)),
                None => ExprV::Negation(Box::new(a)),
            },
            ExprV::Matrix(m) => match grid_nums(m.grid) {
                Some(ns) => ExprV::Matrix(
                    (MatV { rows: m.rows, cols: m.cols, grid: neg_grid(ns) }),
                ),
                None => ExprV::Negation(Box::new(a)),
            },
            _ => ExprV::Negation(Box::new(a)),
        },
    }
}

pub open spec fn fold_not(a: ExprV) -> ExprV {
    match class_v(a) {
        ClassV::Boolean(ob) => match ob {
            Some(b) => ExprV::Boolean(!b),
            None => ExprV::Not(Box::new(a)),
        },
        _ => ExprV::Not(Box::new(a)),
    }
}

/// Addition and subtraction: numbers fold exactly; equally-shaped
/// concrete vectors and matrices fold elementwise; a shape mismatch
/// between two concrete operands is an invalid argument; anything else
/// stays symbolic.
pub open spec fn fold_add_sub(a: ExprV, b: ExprV, sub: bool) -> Result<ExprV, ErrV> {
    let node = if sub {
        ExprV::Difference(Box::new(a), Box::new(b))
    } else {
        ExprV::Sum(Box::new(a), Box::new(b))
    };
    match (as_num(a), as_num(b)) {
        (Some(x), Some(y)) => Ok(if sub {
            num_sub(x, y)
        } else {
            num_add(x, y)
        }),
        _ => {
            if (a is Vector) && (b is Vector) && seq_nums(a->Vector_0) is Some && seq_nums(
                b->Vector_0,
            ) is Some {
                let x = seq_nums(a->Vector_0)->Some_0;
                let y = seq_nums(b->Vector_0)->Some_0;
                if x.len() == y.len() {
                    Ok(ExprV::Vector(ew_seq(x, y, sub)))
                } else {
                    Err(ErrV::InvalidArgument { expression: node, argument: b })
                }
            } else {
                match (as_con_mat(a), as_con_mat(b)) {
                    (Some((r1, c1, g1)), Some((r2, c2, g2))) => if r1 == r2 && c1 == c2 {
                        Ok(ExprV::Matrix((MatV { rows: r1, cols: c1, grid: ew_grid(g1, g2, sub) })))
                    } else {
                        Err(ErrV::InvalidArgument { expression: node, argument: b })
                    },
                    _ => Ok(node),
                }
            }
        },
    }
}

/// Multiplication: numbers fold exactly; a number scales a concrete
/// vector or matrix; two concrete matrix-likes multiply when the inner
/// dimensions agree and mismatch otherwise; anything else stays symbolic.
pub open spec fn fold_product(a: ExprV, b: ExprV) -> Result<ExprV, ErrV> {
    let node = ExprV::Product(Box::new(a), Box::new(b));
    match (as_num(a), as_num(b)) {
        (Some(x), Some(y)) => Ok(num_mul(x, y)),
        (Some(x), None) => match b {
            ExprV::Vector(es) => match seq_nums(es) {
                Some(ns) => Ok(ExprV::Vector(scale_seq(x, ns))),
                None => Ok(node),
            },
            ExprV::Matrix(m) => match grid_nums(m.grid) {
                Some(ns) => Ok(ExprV::Matrix(
                    (MatV { rows: m.rows, cols: m.cols, grid: scale_grid(x, ns) }),
                )),
                None => Ok(node),
            },
            _ => Ok(node),
        },
        (None, Some(y)) => match a {
            ExprV::Vector(es) => match seq_nums(es) {
                Some(ns) => Ok(ExprV::Vector(scale_seq(y, ns))),
                None => Ok(node),
            },
            ExprV::Matrix(m) => match grid_nums(m.grid) {
                Some(ns) => Ok(ExprV::Matrix(
                    (MatV { rows: m.rows, cols: m.cols, grid: scale_grid(y, ns) }),
                )),
                None => Ok(node),
            },
            _ => Ok(node),
        },
        (None, None) => match (as_con_mat(a), as_con_mat(b)) {
            (Some((r1, c1, g1)), Some((r2, c2, g2))) => if c1 == r2 {
                Ok(ExprV::Matrix((MatV { rows: r1, cols: c2, grid: mat_mul_grid(g1, g2, c1, c2) })))
            } else {
                Err(ErrV::InvalidArgument { expression: node, argument: b })
            },
            _ => Ok(node),
        },
    }
}

pub open spec fn fold_quotient(a: ExprV, b: ExprV) -> Result<ExprV, ErrV> {
    let node = ExprV::Quotient(Box::new(a), Box::new(b));
    match (as_num(a), as_num(b)) {
        (Some(x), Some(y)) => if c_is_zero_v(y.0) {
            Err(ErrV::DivisionByZero { expression: node })
        } else {
            Ok(demote(c_div_v(x.0, y.0), merge_repr(x.1, y.1)))
        },
        _ => Ok(node),
    }
}

/// Remainder folds only for real operands (zero imaginary parts).
pub open spec fn fold_remainder(a: ExprV, b: ExprV) -> Result<ExprV, ErrV> {
    let node = ExprV::Remainder(Box::new(a), Box::new(b));
    match (as_num(a), as_num(b)) {
        (Some(x), Some(y)) => if x.0.im.n == 0 && y.0.im.n == 0 {
            if y.0.re.n == 0 {
                Err(ErrV::DivisionByZero { expression: node })
            } else {
                Ok(demote(
                    (ComplexV { re: rat_rem_v(x.0.re, y.0.re), im: rat_zero_v() }),
                    merge_repr(x.1, y.1),
                ))
            }
        } else {
            Ok(node)
        },
        _ => Ok(node),
    }
}

/// Power folds for integer exponents on exact numeric bases: a negative
/// exponent inverts a non-zero base first; an exponent beyond the
/// machine's range stays symbolic.
pub open spec fn fold_power(a: ExprV, b: ExprV) -> Result<ExprV, ErrV> {
    let node = ExprV::Power(Box::new(a), Box::new(b));
    match (as_num(a), as_num(b)) {
        (Some(x), Some(y)) => if y.0.im.n == 0 && y.0.re.d == 1 {
            let k = y.0.re.n;
            let rep = merge_repr(x.1, y.1);
            if k >= 0 {
                if k > u64::MAX {
                    Ok(node)
                } else {
                    Ok(demote(c_pow_v(x.0, k as nat), rep))
                }
            } else {
                if -k > u64::MAX {
                    Ok(node)
                } else if c_is_zero_v(x.0) {
                    Err(ErrV::DivisionByZero { expression: node })
                } else {
                    Ok(demote(c_pow_v(c_recip_v(x.0), (-k) as nat), rep))
                }
            }
        } else {
            Ok(node)
        },
        _ => Ok(node),
    }
}

/// Comparisons fold between numbers: equality for any exact numbers,
/// order only between reals; `op` indexes `==  !=  <  <=  >  >=`.
pub open spec fn fold_comparison(op: int, a: ExprV, b: ExprV) -> ExprV {
    let node = crate::parse::comparison_node(op, a, b);
    match (as_num(a), as_num(b)) {
        (Some(x), Some(y)) => {
            if op == 0 {
                ExprV::Boolean(c_eq_v(x.0, y.0))
            } else if op == 1 {
                ExprV::Boolean(!c_eq_v(x.0, y.0))
            } else if x.0.im.n == 0 && y.0.im.n == 0 {
                let lt_ab = rat_lt_v(x.0.re, y.0.re);
                let lt_ba = rat_lt_v(y.0.re, x.0.re);
                if op == 2 {
                    ExprV::Boolean(lt_ab)
                } else if op == 3 {
                    ExprV::Boolean(!lt_ba)
                } else if op == 4 {
                    ExprV::Boolean(lt_ba)
                } else {
                    ExprV::Boolean(!lt_ab)
                }
            } else {
                node
            }
        },
        _ => node,
    }
}

pub open spec fn fold_and(a: ExprV, b: ExprV) -> ExprV {
    match (class_v(a), class_v(b)) {
        (ClassV::Boolean(Some(x)), ClassV::Boolean(Some(y))) => ExprV::Boolean(x && y),
        _ => ExprV::And(Box::new(a), Box::new(b)),
    }
}

pub open spec fn fold_or(a: ExprV, b: ExprV) -> ExprV {
    match (class_v(a), class_v(b)) {
        (ClassV::Boolean(Some(x)), ClassV::Boolean(Some(y))) => ExprV::Boolean(x || y),
        _ => ExprV::Or(Box::new(a), Box::new(b)),
    }
}

/// The bindings of a parameter list to argument values, later parameters
/// shadowing earlier ones of the same name.
pub open spec fn bind_params(params: Seq<Seq<char>>, args: Seq<ExprV>) -> Map<Seq<char>, ExprV>
    decreases params,
    when params.len() == args.len()
{
    if params.len() == 0 {
        Map::empty()
    } else {
        bind_params(params.drop_last(), args.drop_last()).insert(params.last(), args.last())
    }
}

// ------------------------------------------------------------------
// The evaluation rules.
// ------------------------------------------------------------------

pub open spec fn eval_s(e: ExprV, ctx: Map<Seq<char>, ExprV>, depth: nat) -> Result<ExprV, ErrV>
    decreases depth, e, 1nat,
{
    match e {
        ExprV::Variable(x) => if ctx.dom().contains(x) {
            if depth == 0 {
                Err(ErrV::RecursionDepthExceeded { expression: e })
            } else {
                eval_s(ctx[x], ctx, (depth - 1) as nat)
            }
        } else {
            Ok(e)
        },
        ExprV::Function(f, args) => match eval_s(*f, ctx, depth) {
            Err(er) => Err(er),
            Ok(f2) => match eval_seq_from(args, 0, ctx, depth) {
                Err(er) => Err(er),
                Ok(args2) => {
                    let rebuilt = ExprV::Function(Box::new(f2), args2);
                    match f2 {
                        ExprV::FunctionValue(name, fb) => match fb {
                            FunV::Builtin(b) => match crate::functions::apply_builtin(
                                b,
                                rebuilt,
                                args2,
                            ) {
                                Err(er) => Err(er),
                                Ok(crate::functions::BuiltinOutcome::Done(x)) => Ok(x),
                                Ok(crate::functions::BuiltinOutcome::Evaluate(t)) => if depth
                                    == 0 {
                                    Err(ErrV::RecursionDepthExceeded { expression: rebuilt })
                                } else {
                                    eval_s(t, ctx, (depth - 1) as nat)
                                },
                            },
                            FunV::UserDefined(params, body) => if args2.len() != params.len() {
                                Err(ErrV::InvalidNumberOfArguments {
                                    expression: rebuilt,
                                    min_number: params.len(),
                                    max_number: params.len(),
                                    given_number: args2.len(),
                                })
                            } else if depth == 0 {
                                Err(ErrV::RecursionDepthExceeded { expression: rebuilt })
                            } else {
                                eval_s(*body, bind_params(params, args2), (depth - 1) as nat)
                            },
                        },
                        _ => Ok(rebuilt),
                    }
                },
            },
        },
        ExprV::Integer(_) => Ok(e),
        ExprV::Rational(x, rep) => Ok(demote((ComplexV { re: x, im: rat_zero_v() }), rep)),
        ExprV::Complex(z, rep) => Ok(demote(z, rep)),
        ExprV::Vector(es) => match eval_seq_from(es, 0, ctx, depth) {
            Err(er) => Err(er),
            Ok(es2) => Ok(ExprV::Vector(es2)),
        },
        ExprV::Matrix(m) => match eval_rows_from(m.grid, 0, ctx, depth) {
            Err(er) => Err(er),
            Ok(g2) => Ok(ExprV::Matrix((MatV { rows: m.rows, cols: m.cols, grid: g2 }))),
        },
        ExprV::Boolean(_) => Ok(e),
        ExprV::FunctionValue(_, _) => Ok(e),
        ExprV::Negation(a) => match eval_s(*a, ctx, depth) {
            Err(er) => Err(er),
            Ok(a2) => Ok(fold_negation(a2)),
        },
        ExprV::Not(a) => match eval_s(*a, ctx, depth) {
            Err(er) => Err(er),
            Ok(a2) => Ok(fold_not(a2)),
        },
        ExprV::Sum(a, b) => match (eval_s(*a, ctx, depth), eval_s(*b, ctx, depth)) {
            (Ok(a2), Ok(b2)) => fold_add_sub(a2, b2, false),
            (Err(er), _) => Err(er),
            (_, Err(er)) => Err(er),
        },
        ExprV::Difference(a, b) => match (eval_s(*a, ctx, depth), eval_s(*b, ctx, depth)) {
            (Ok(a2), Ok(b2)) => fold_add_sub(a2, b2, true),
            (Err(er), _) => Err(er),
            (_, Err(er)) => Err(er),
        },
        ExprV::Product(a, b) => match (eval_s(*a, ctx, depth), eval_s(*b, ctx, depth)) {
            (Ok(a2), Ok(b2)) => fold_product(a2, b2),
            (Err(er), _) => Err(er),
            (_, Err(er)) => Err(er),
        },
        ExprV::Quotient(a, b) => match (eval_s(*a, ctx, depth), eval_s(*b, ctx, depth)) {
            (Ok(a2), Ok(b2)) => fold_quotient(a2, b2),
            (Err(er), _) => Err(er),
            (_, Err(er)) => Err(er),
        },
        ExprV::Remainder(a, b) => match (eval_s(*a, ctx, depth), eval_s(*b, ctx, depth)) {
            (Ok(a2), Ok(b2)) => fold_remainder(a2, b2),
            (Err(er), _) => Err(er),
            (_, Err(er)) => Err(er),
        },
        ExprV::Power(a, b) => match (eval_s(*a, ctx, depth), eval_s(*b, ctx, depth)) {
            (Ok(a2), Ok(b2)) => fold_power(a2, b2),
            (Err(er), _) => Err(er),
            (_, Err(er)) => Err(er),
        },
        ExprV::Equal(a, b) => match (eval_s(*a, ctx, depth), eval_s(*b, ctx, depth)) {
            (Ok(a2), Ok(b2)) => Ok(fold_comparison(0, a2, b2)),
            (Err(er), _) => Err(er),
            (_, Err(er)) => Err(er),
        },
        ExprV::NotEqual(a, b) => match (eval_s(*a, ctx, depth), eval_s(*b, ctx, depth)) {
            (Ok(a2), Ok(b2)) => Ok(fold_comparison(1, a2, b2)),
            (Err(er), _) => Err(er),
            (_, Err(er)) => Err(er),
        },
        ExprV::LessThan(a, b) => match (eval_s(*a, ctx, depth), eval_s(*b, ctx, depth)) {
            (Ok(a2), Ok(b2)) => Ok(fold_comparison(2, a2, b2)),
            (Err(er), _) => Err(er),
            (_, Err(er)) => Err(er),
        },
        ExprV::LessThanOrEqual(a, b) => match (eval_s(*a, ctx, depth), eval_s(*b, ctx, depth)) {
            (Ok(a2), Ok(b2)) => Ok(fold_comparison(3, a2, b2)),
            (Err(er), _) => Err(er),
            (_, Err(er)) => Err(er),
        },
        ExprV::GreaterThan(a, b) => match (eval_s(*a, ctx, depth), eval_s(*b, ctx, depth)) {
            (Ok(a2), Ok(b2)) => Ok(fold_comparison(4, a2, b2)),
            (Err(er), _) => Err(er),
            (_, Err(er)) => Err(er),
        },
        ExprV::GreaterThanOrEqual(a, b) => match (
            eval_s(*a, ctx, depth),
            eval_s(*b, ctx, depth),
        ) {
            (Ok(a2), Ok(b2)) => Ok(fold_comparison(5, a2, b2)),
            (Err(er), _) => Err(er),
            (_, Err(er)) => Err(er),
        },
        ExprV::And(a, b) => match (eval_s(*a, ctx, depth), eval_s(*b, ctx, depth)) {
            (Ok(a2), Ok(b2)) => Ok(fold_and(a2, b2)),
            (Err(er), _) => Err(er),
            (_, Err(er)) => Err(er),
        },
        ExprV::Or(a, b) => match (eval_s(*a, ctx, depth), eval_s(*b, ctx, depth)) {
            (Ok(a2), Ok(b2)) => Ok(fold_or(a2, b2)),
            (Err(er), _) => Err(er),
            (_, Err(er)) => Err(er),
        },
    }
}

/// Evaluates the elements of a sequence from index `i` on.
pub open spec fn eval_seq_from(
    es: Seq<ExprV>,
    i: int,
    ctx: Map<Seq<char>, ExprV>,
    depth: nat,
) -> Result<Seq<ExprV>, ErrV>
    decreases depth, es, es.len() - i,
    when 0 <= i
{
    if i >= es.len() {
        Ok(Seq::empty())
    } else {
        match eval_s(es[i], ctx, depth) {
            Err(er) => Err(er),
            Ok(h) => match eval_seq_from(es, i + 1, ctx, depth) {
                Err(er) => Err(er),
                Ok(t) => Ok(seq![h] + t),
            },
        }
    }
}

/// Evaluates the rows of a grid from index `i` on.
pub open spec fn eval_rows_from(
    g: Seq<Seq<ExprV>>,
    i: int,
    ctx: Map<Seq<char>, ExprV>,
    depth: nat,
) -> Result<Seq<Seq<ExprV>>, ErrV>
    decreases depth, g, g.len() - i,
    when 0 <= i
{
    if i >= g.len() {
        Ok(Seq::empty())
    } else {
        match eval_seq_from(g[i], 0, ctx, depth) {
            Err(er) => Err(er),
            Ok(h) => match eval_rows_from(g, i + 1, ctx, depth) {
                Err(er) => Err(er),
                Ok(t) => Ok(seq![h] + t),
            },
        }
    }
}


// ------------------------------------------------------------------
// Executable numeric views.
// ------------------------------------------------------------------

use crate::expression::Complex;
use crate::number::{
    rat_clone, rat_from_big, rat_zero, big_clone, lemma_c_add_wf, lemma_c_mul_wf,
    lemma_c_sub_wf, lemma_rat_rem_wf,
};

pub open spec fn nums_view(v: Seq<(Complex, RationalRepresentation)>) -> Seq<
    (ComplexV, RationalRepresentation),
> {
    v.map_values(|p: (Complex, RationalRepresentation)| (p.0.view_c(), p.1))
}

pub open spec fn nums_wf(v: Seq<(ComplexV, RationalRepresentation)>) -> bool {
    forall|i: int| 0 <= i < v.len() ==> c_wf((#[trigger] v[i]).0)
}

pub open spec fn grid_nums_view(v: Seq<Vec<(Complex, RationalRepresentation)>>) -> Seq<
    Seq<(ComplexV, RationalRepresentation)>,
> {
    v.map_values(|row: Vec<(Complex, RationalRepresentation)>| nums_view(row@))
}

pub open spec fn grid_nums_wf(v: Seq<Seq<(ComplexV, RationalRepresentation)>>) -> bool {
    forall|i: int| 0 <= i < v.len() ==> nums_wf(#[trigger] v[i])
}

/// Builds the literal a computed number folds to.
fn demote_e(z: Complex, rep: RationalRepresentation) -> (r: Expression)
    requires
        c_wf(z.view_c()),
    ensures
        r@ == demote(z.view_c(), rep),
        wf_v(r@),
{
    if crate::number::rat_is_zero(&z.im) {
        if crate::number::rat_is_one_denom(&z.re) {
            Expression::Integer(crate::number::rat_numer_big(&z.re))
        } else {
            Expression::Rational(rat_clone(&z.re), rep)
        }
    } else {
        Expression::Complex(z, rep)
    }
}

/// Reads a numeric literal's exact value and representation.
fn as_num_e(e: &Expression) -> (r: Option<(Complex, RationalRepresentation)>)
    requires
        wf_v(e@),
    ensures
        match r {
            Some((z, rep)) => as_num(e@) == Some((z.view_c(), rep)) && c_wf(z.view_c()),
            None => as_num(e@) is None,
        },
{
    match e {
        Expression::Integer(n) => Some(
            (
                Complex { re: rat_from_big(big_clone(n)), im: rat_zero() },
                RationalRepresentation::Fraction,
            ),
        ),
        Expression::Rational(x, rep) => Some(
            (Complex { re: rat_clone(x), im: rat_zero() }, *rep),
        ),
        Expression::Complex(z, rep) => Some((z.duplicate(), *rep)),
        _ => None,
    }
}

proof fn lemma_seq_nums_props(es: Seq<ExprV>)
    ensures
        seq_nums(es) is Some <==> (forall|i: int| 0 <= i < es.len() ==> as_num(
            #[trigger] es[i],
        ) is Some),
        seq_nums(es) is Some ==> seq_nums(es)->Some_0.len() == es.len(),
        seq_nums(es) is Some ==> forall|i: int| 0 <= i < es.len() ==> #[trigger] seq_nums(
            es,
        )->Some_0[i] == as_num(es[i])->Some_0,
    decreases es,
{
    if es.len() > 0 {
        let t = es.drop_first();
        lemma_seq_nums_props(t);
        assert(forall|i: int| 1 <= i < es.len() ==> #[trigger] es[i] == t[i - 1]);
        if as_num(es[0]) is Some && seq_nums(t) is Some {
            let h = as_num(es[0])->Some_0;
            let tl = seq_nums(t)->Some_0;
            assert(seq_nums(es) == Some(seq![h] + tl));
            assert forall|i: int| 0 <= i < es.len() implies as_num(#[trigger] es[i]) is Some by {
                if i >= 1 {
                    assert(as_num(t[i - 1]) is Some);
                }
            }
            assert forall|i: int| 0 <= i < es.len() implies #[trigger] seq_nums(
                es,
            )->Some_0[i] == as_num(es[i])->Some_0 by {
                if i >= 1 {
                    assert((seq![h] + tl)[i] == tl[i - 1]);
                    assert(tl[i - 1] == as_num(t[i - 1])->Some_0);
                }
            }
        } else {
            assert(seq_nums(es) is None);
            if as_num(es[0]) is None {
            } else {
                assert(!(forall|i: int| 0 <= i < t.len() ==> as_num(#[trigger] t[i]) is Some));
                let j = choose|j: int| 0 <= j < t.len() && !(as_num(#[trigger] t[j]) is Some);
                assert(as_num(es[j + 1]) is None);
            }
        }
    }
}

proof fn lemma_grid_nums_props(g: Seq<Seq<ExprV>>)
    ensures
        grid_nums(g) is Some <==> (forall|i: int| 0 <= i < g.len() ==> seq_nums(
            #[trigger] g[i],
        ) is Some),
        grid_nums(g) is Some ==> grid_nums(g)->Some_0.len() == g.len(),
        grid_nums(g) is Some ==> forall|i: int| 0 <= i < g.len() ==> #[trigger] grid_nums(
            g,
        )->Some_0[i] == seq_nums(g[i])->Some_0,
    decreases g,
{
    if g.len() > 0 {
        let t = g.drop_first();
        lemma_grid_nums_props(t);
        assert(forall|i: int| 1 <= i < g.len() ==> #[trigger] g[i] == t[i - 1]);
        if seq_nums(g[0]) is Some && grid_nums(t) is Some {
            let h = seq_nums(g[0])->Some_0;
            let tl = grid_nums(t)->Some_0;
            assert(grid_nums(g) == Some(seq![h] + tl));
            assert forall|i: int| 0 <= i < g.len() implies seq_nums(#[trigger] g[i]) is Some by {
                if i >= 1 {
                    assert(seq_nums(t[i - 1]) is Some);
                }
            }
            assert forall|i: int| 0 <= i < g.len() implies #[trigger] grid_nums(
                g,
            )->Some_0[i] == seq_nums(g[i])->Some_0 by {
                if i >= 1 {
                    assert((seq![h] + tl)[i] == tl[i - 1]);
                    assert(tl[i - 1] == seq_nums(t[i - 1])->Some_0);
                }
            }
        } else {
            assert(grid_nums(g) is None);
            if seq_nums(g[0]) is None {
            } else {
                assert(!(forall|i: int| 0 <= i < t.len() ==> seq_nums(#[trigger] t[i]) is Some));
                let j = choose|j: int| 0 <= j < t.len() && !(seq_nums(#[trigger] t[j]) is Some);
                assert(seq_nums(g[j + 1]) is None);
            }
        }
    }
}

/// Reads a vector of numeric literals, or reports that one is not a
/// number.
fn vec_nums_e(es: &Vec<Expression>) -> (r: Option<Vec<(Complex, RationalRepresentation)>>)
    requires
        wf_v_seq(expr_v_seq(es@)),
    ensures
        match r {
            Some(v) => seq_nums(expr_v_seq(es@)) == Some(nums_view(v@)) && nums_wf(
                nums_view(v@),
            ),
            None => seq_nums(expr_v_seq(es@)) is None,
        },
{
    let ghost esv = expr_v_seq(es@);
    proof {
        crate::expression::lemma_expr_v_seq_len(es@);
        lemma_seq_nums_props(esv);
    }
    let mut out: Vec<(Complex, RationalRepresentation)> = Vec::new();
    let mut i: usize = 0;
    while i < es.len()
        invariant
            0 <= i <= es@.len(),
            esv == expr_v_seq(es@),
            esv.len() == es@.len(),
            wf_v_seq(esv),
            out@.len() == i,
            forall|j: int| 0 <= j < i ==> as_num(#[trigger] esv[j]) is Some,
            forall|j: int| 0 <= j < i ==> (#[trigger] out@[j]).0.view_c() == as_num(
                esv[j],
            )->Some_0.0 && out@[j].1 == as_num(esv[j])->Some_0.1,
            forall|j: int| 0 <= j < i ==> c_wf((#[trigger] out@[j]).0.view_c()),
        decreases es@.len() - i,
    {
        proof {
            crate::expression::lemma_expr_v_seq_index(es@, i as int);
            crate::expression::lemma_wf_v_seq_index(esv, i as int);
        }
        match as_num_e(&es[i]) {
            Some(p) => {
                out.push(p);
            },
            None => {
                proof {
                    lemma_seq_nums_props(esv);
                }
                return None;
            },
        }
        i = i + 1;
    }
    proof {
        lemma_seq_nums_props(esv);
        assert(nums_view(out@) =~= seq_nums(esv)->Some_0);
    }
    Some(out)
}

/// Reads a grid of numeric literals row by row.
fn grid_nums_e(rows: &Vec<Vec<Expression>>) -> (r: Option<
    Vec<Vec<(Complex, RationalRepresentation)>>,
>)
    requires
        wf_v_grid(expr_v_rows(rows@)),
    ensures
        match r {
            Some(v) => grid_nums(expr_v_rows(rows@)) == Some(grid_nums_view(v@)) && grid_nums_wf(
                grid_nums_view(v@),
            ),
            None => grid_nums(expr_v_rows(rows@)) is None,
        },
{
    let ghost g = expr_v_rows(rows@);
    proof {
        crate::expression::lemma_expr_v_rows_len(rows@);
        lemma_grid_nums_props(g);
    }
    let mut out: Vec<Vec<(Complex, RationalRepresentation)>> = Vec::new();
    let mut i: usize = 0;
    while i < rows.len()
        invariant
            0 <= i <= rows@.len(),
            g == expr_v_rows(rows@),
            g.len() == rows@.len(),
            wf_v_grid(g),
            out@.len() == i,
            forall|j: int| 0 <= j < i ==> seq_nums(#[trigger] g[j]) is Some,
            forall|j: int| 0 <= j < i ==> nums_view((#[trigger] out@[j])@) == seq_nums(
                g[j],
            )->Some_0,
            forall|j: int| 0 <= j < i ==> nums_wf(nums_view((#[trigger] out@[j])@)),
        decreases rows@.len() - i,
    {
        proof {
            crate::expression::lemma_expr_v_rows_index(rows@, i as int);
            crate::expression::lemma_wf_v_grid_index(g, i as int);
        }
        match vec_nums_e(&rows[i]) {
            Some(v) => {
                out.push(v);
            },
            None => {
                proof {
                    lemma_grid_nums_props(g);
                }
                return None;
            },
        }
        i = i + 1;
    }
    proof {
        lemma_grid_nums_props(g);
        assert(grid_nums_view(out@) =~= grid_nums(g)->Some_0);
    }
    Some(out)
}


// ------------------------------------------------------------------
// Executable elementwise matrix arithmetic.
// ------------------------------------------------------------------

fn ew_vec_e(
    a: &Vec<(Complex, RationalRepresentation)>,
    b: &Vec<(Complex, RationalRepresentation)>,
    sub: bool,
) -> (r: Vec<Expression>)
    requires
        a@.len() == b@.len(),
        nums_wf(nums_view(a@)),
        nums_wf(nums_view(b@)),
    ensures
        expr_v_seq(r@) == ew_seq(nums_view(a@), nums_view(b@), sub),
        wf_v_seq(expr_v_seq(r@)),
{
    let ghost av = nums_view(a@);
    let ghost bv = nums_view(b@);
    let mut out: Vec<Expression> = Vec::new();
    let mut i: usize = 0;
    while i < a.len()
        invariant
            0 <= i <= a@.len(),
            a@.len() == b@.len(),
            av == nums_view(a@),
            bv == nums_view(b@),
            nums_wf(av),
            nums_wf(bv),
            out@.len() == i,
            forall|j: int| 0 <= j < i ==> (#[trigger] out@[j])@ == ew_seq(av, bv, sub)[j],
            forall|j: int| 0 <= j < i ==> wf_v((#[trigger] out@[j])@),
        decreases a@.len() - i,
    {
        let x = &a[i];
        let y = &b[i];
        proof {
            assert(av[i as int] == (x.0.view_c(), x.1));
            assert(bv[i as int] == (y.0.view_c(), y.1));
            if sub {
                lemma_c_sub_wf(x.0.view_c(), y.0.view_c());
            } else {
                lemma_c_add_wf(x.0.view_c(), y.0.view_c());
            }
        }
        let z = if sub {
            x.0.sub(&y.0)
        } else {
            x.0.add(&y.0)
        };
        let e = demote_e(z, x.1.merge(y.1));
        out.push(e);
        i = i + 1;
    }
    proof {
        crate::expression::lemma_expr_v_seq_len(out@);
        assert forall|j: int| 0 <= j < out@.len() implies #[trigger] expr_v_seq(out@)[j]
            == ew_seq(av, bv, sub)[j] by {
            crate::expression::lemma_expr_v_seq_index(out@, j);
        }
        assert(expr_v_seq(out@) =~= ew_seq(av, bv, sub));
        crate::expression::lemma_wf_v_seq_iff(expr_v_seq(out@));
        assert forall|j: int| 0 <= j < out@.len() implies wf_v(
            #[trigger] expr_v_seq(out@)[j],
        ) by {
            crate::expression::lemma_expr_v_seq_index(out@, j);
        }
    }
    out
}

fn ew_grid_e(
    a: &Vec<Vec<(Complex, RationalRepresentation)>>,
    b: &Vec<Vec<(Complex, RationalRepresentation)>>,
    sub: bool,
) -> (r: Vec<Vec<Expression>>)
    requires
        a@.len() == b@.len(),
        forall|j: int| 0 <= j < a@.len() ==> (#[trigger] a@[j])@.len() == b@[j]@.len(),
        grid_nums_wf(grid_nums_view(a@)),
        grid_nums_wf(grid_nums_view(b@)),
    ensures
        expr_v_rows(r@) == ew_grid(grid_nums_view(a@), grid_nums_view(b@), sub),
        wf_v_grid(expr_v_rows(r@)),
        r@.len() == a@.len(),
        forall|j: int| 0 <= j < r@.len() ==> (#[trigger] r@[j])@.len() == a@[j]@.len(),
{
    let ghost av = grid_nums_view(a@);
    let ghost bv = grid_nums_view(b@);
    let mut out: Vec<Vec<Expression>> = Vec::new();
    let mut i: usize = 0;
    while i < a.len()
        invariant
            0 <= i <= a@.len(),
            a@.len() == b@.len(),
            forall|j: int| 0 <= j < a@.len() ==> (#[trigger] a@[j])@.len() == b@[j]@.len(),
            av == grid_nums_view(a@),
            bv == grid_nums_view(b@),
            grid_nums_wf(av),
            grid_nums_wf(bv),
            out@.len() == i,
            forall|j: int| 0 <= j < i ==> expr_v_seq((#[trigger] out@[j])@) == ew_grid(
                av,
                bv,
                sub,
            )[j],
            forall|j: int| 0 <= j < i ==> wf_v_seq(expr_v_seq((#[trigger] out@[j])@)),
            forall|j: int| 0 <= j < i ==> (#[trigger] out@[j])@.len() == a@[j]@.len(),
        decreases a@.len() - i,
    {
        proof {
            assert(av[i as int] == nums_view(a@[i as int]@));
            assert(bv[i as int] == nums_view(b@[i as int]@));
        }
        let row = ew_vec_e(&a[i], &b[i], sub);
        proof {
            crate::expression::lemma_expr_v_seq_len(row@);
        }
        out.push(row);
        i = i + 1;
    }
    proof {
        crate::expression::lemma_expr_v_rows_len(out@);
        assert forall|j: int| 0 <= j < out@.len() implies #[trigger] expr_v_rows(out@)[j]
            == ew_grid(av, bv, sub)[j] by {
            crate::expression::lemma_expr_v_rows_index(out@, j);
        }
        assert(expr_v_rows(out@) =~= ew_grid(av, bv, sub));
        crate::expression::lemma_wf_v_grid_iff(expr_v_rows(out@));
        assert forall|j: int| 0 <= j < out@.len() implies wf_v_seq(
            #[trigger] expr_v_rows(out@)[j],
        ) by {
            crate::expression::lemma_expr_v_rows_index(out@, j);
        }
    }
    out
}

fn scale_vec_e(
    k: &(Complex, RationalRepresentation),
    a: &Vec<(Complex, RationalRepresentation)>,
) -> (r: Vec<Expression>)
    requires
        c_wf(k.0.view_c()),
        nums_wf(nums_view(a@)),
    ensures
        expr_v_seq(r@) == scale_seq((k.0.view_c(), k.1), nums_view(a@)),
        wf_v_seq(expr_v_seq(r@)),
{
    let ghost kv = (k.0.view_c(), k.1);
    let ghost av = nums_view(a@);
    let mut out: Vec<Expression> = Vec::new();
    let mut i: usize = 0;
    while i < a.len()
        invariant
            0 <= i <= a@.len(),
            kv == (k.0.view_c(), k.1),
            c_wf(kv.0),
            av == nums_view(a@),
            nums_wf(av),
            out@.len() == i,
            forall|j: int| 0 <= j < i ==> (#[trigger] out@[j])@ == scale_seq(kv, av)[j],
            forall|j: int| 0 <= j < i ==> wf_v((#[trigger] out@[j])@),
        decreases a@.len() - i,
    {
        let x = &a[i];
        proof {
            assert(av[i as int] == (x.0.view_c(), x.1));
            lemma_c_mul_wf(k.0.view_c(), x.0.view_c());
        }
        let z = k.0.mul(&x.0);
        let e = demote_e(z, k.1.merge(x.1));
        out.push(e);
        i = i + 1;
    }
    proof {
        crate::expression::lemma_expr_v_seq_len(out@);
        assert forall|j: int| 0 <= j < out@.len() implies #[trigger] expr_v_seq(out@)[j]
            == scale_seq(kv, av)[j] by {
            crate::expression::lemma_expr_v_seq_index(out@, j);
        }
        assert(expr_v_seq(out@) =~= scale_seq(kv, av));
        crate::expression::lemma_wf_v_seq_iff(expr_v_seq(out@));
        assert forall|j: int| 0 <= j < out@.len() implies wf_v(
            #[trigger] expr_v_seq(out@)[j],
        ) by {
            crate::expression::lemma_expr_v_seq_index(out@, j);
        }
    }
    out
}

fn scale_grid_e(
    k: &(Complex, RationalRepresentation),
    a: &Vec<Vec<(Complex, RationalRepresentation)>>,
) -> (r: Vec<Vec<Expression>>)
    requires
        c_wf(k.0.view_c()),
        grid_nums_wf(grid_nums_view(a@)),
    ensures
        expr_v_rows(r@) == scale_grid((k.0.view_c(), k.1), grid_nums_view(a@)),
        wf_v_grid(expr_v_rows(r@)),
        r@.len() == a@.len(),
        forall|j: int| 0 <= j < r@.len() ==> (#[trigger] r@[j])@.len() == a@[j]@.len(),
{
    let ghost kv = (k.0.view_c(), k.1);
    let ghost av = grid_nums_view(a@);
    let mut out: Vec<Vec<Expression>> = Vec::new();
    let mut i: usize = 0;
    while i < a.len()
        invariant
            0 <= i <= a@.len(),
            kv == (k.0.view_c(), k.1),
            c_wf(kv.0),
            av == grid_nums_view(a@),
            grid_nums_wf(av),
            out@.len() == i,
            forall|j: int| 0 <= j < i ==> expr_v_seq((#[trigger] out@[j])@) == scale_grid(
                kv,
                av,
            )[j],
            forall|j: int| 0 <= j < i ==> wf_v_seq(expr_v_seq((#[trigger] out@[j])@)),
            forall|j: int| 0 <= j < i ==> (#[trigger] out@[j])@.len() == a@[j]@.len(),
        decreases a@.len() - i,
    {
        proof {
            assert(av[i as int] == nums_view(a@[i as int]@));
        }
        let row = scale_vec_e(k, &a[i]);
        proof {
            crate::expression::lemma_expr_v_seq_len(row@);
        }
        out.push(row);
        i = i + 1;
    }
    proof {
        crate::expression::lemma_expr_v_rows_len(out@);
        assert forall|j: int| 0 <= j < out@.len() implies #[trigger] expr_v_rows(out@)[j]
            == scale_grid(kv, av)[j] by {
            crate::expression::lemma_expr_v_rows_index(out@, j);
        }
        assert(expr_v_rows(out@) =~= scale_grid(kv, av));
        crate::expression::lemma_wf_v_grid_iff(expr_v_rows(out@));
        assert forall|j: int| 0 <= j < out@.len() implies wf_v_seq(
            #[trigger] expr_v_rows(out@)[j],
        ) by {
            crate::expression::lemma_expr_v_rows_index(out@, j);
        }
    }
    out
}

fn neg_vec_e(a: &Vec<(Complex, RationalRepresentation)>) -> (r: Vec<Expression>)
    requires
        nums_wf(nums_view(a@)),
    ensures
        expr_v_seq(r@) == neg_seq(nums_view(a@)),
        wf_v_seq(expr_v_seq(r@)),
{
    let ghost av = nums_view(a@);
    let mut out: Vec<Expression> = Vec::new();
    let mut i: usize = 0;
    while i < a.len()
        invariant
            0 <= i <= a@.len(),
            av == nums_view(a@),
            nums_wf(av),
            out@.len() == i,
            forall|j: int| 0 <= j < i ==> (#[trigger] out@[j])@ == neg_seq(av)[j],
            forall|j: int| 0 <= j < i ==> wf_v((#[trigger] out@[j])@),
        decreases a@.len() - i,
    {
        let x = &a[i];
        proof {
            assert(av[i as int] == (x.0.view_c(), x.1));
        }
        let z = x.0.negate();
        let e = demote_e(z, x.1);
        out.push(e);
        i = i + 1;
    }
    proof {
        crate::expression::lemma_expr_v_seq_len(out@);
        assert forall|j: int| 0 <= j < out@.len() implies #[trigger] expr_v_seq(out@)[j]
            == neg_seq(av)[j] by {
            crate::expression::lemma_expr_v_seq_index(out@, j);
        }
        assert(expr_v_seq(out@) =~= neg_seq(av));
        crate::expression::lemma_wf_v_seq_iff(expr_v_seq(out@));
        assert forall|j: int| 0 <= j < out@.len() implies wf_v(
            #[trigger] expr_v_seq(out@)[j],
        ) by {
            crate::expression::lemma_expr_v_seq_index(out@, j);
        }
    }
    out
}

fn neg_grid_e(a: &Vec<Vec<(Complex, RationalRepresentation)>>) -> (r: Vec<Vec<Expression>>)
    requires
        grid_nums_wf(grid_nums_view(a@)),
    ensures
        expr_v_rows(r@) == neg_grid(grid_nums_view(a@)),
        wf_v_grid(expr_v_rows(r@)),
        r@.len() == a@.len(),
        forall|j: int| 0 <= j < r@.len() ==> (#[trigger] r@[j])@.len() == a@[j]@.len(),
{
    let ghost av = grid_nums_view(a@);
    let mut out: Vec<Vec<Expression>> = Vec::new();
    let mut i: usize = 0;
    while i < a.len()
        invariant
            0 <= i <= a@.len(),
            av == grid_nums_view(a@),
            grid_nums_wf(av),
            out@.len() == i,
            forall|j: int| 0 <= j < i ==> expr_v_seq((#[trigger] out@[j])@) == neg_grid(av)[j],
            forall|j: int| 0 <= j < i ==> wf_v_seq(expr_v_seq((#[trigger] out@[j])@)),
            forall|j: int| 0 <= j < i ==> (#[trigger] out@[j])@.len() == a@[j]@.len(),
        decreases a@.len() - i,
    {
        proof {
            assert(av[i as int] == nums_view(a@[i as int]@));
        }
        let row = neg_vec_e(&a[i]);
        proof {
            crate::expression::lemma_expr_v_seq_len(row@);
        }
        out.push(row);
        i = i + 1;
    }
    proof {
        crate::expression::lemma_expr_v_rows_len(out@);
        assert forall|j: int| 0 <= j < out@.len() implies #[trigger] expr_v_rows(out@)[j]
            == neg_grid(av)[j] by {
            crate::expression::lemma_expr_v_rows_index(out@, j);
        }
        assert(expr_v_rows(out@) =~= neg_grid(av));
        crate::expression::lemma_wf_v_grid_iff(expr_v_rows(out@));
        assert forall|j: int| 0 <= j < out@.len() implies wf_v_seq(
            #[trigger] expr_v_rows(out@)[j],
        ) by {
            crate::expression::lemma_expr_v_rows_index(out@, j);
        }
    }
    out
}

fn mat_mul_e(
    a: &Vec<Vec<(Complex, RationalRepresentation)>>,
    b: &Vec<Vec<(Complex, RationalRepresentation)>>,
    inner: usize,
    bcols: usize,
) -> (r: Vec<Vec<Expression>>)
    requires
        grid_nums_wf(grid_nums_view(a@)),
        grid_nums_wf(grid_nums_view(b@)),
        b@.len() == inner,
        forall|j: int| 0 <= j < a@.len() ==> (#[trigger] a@[j])@.len() == inner,
        forall|j: int| 0 <= j < b@.len() ==> (#[trigger] b@[j])@.len() == bcols,
    ensures
        expr_v_rows(r@) == mat_mul_grid(
            grid_nums_view(a@),
            grid_nums_view(b@),
            inner as nat,
            bcols as nat,
        ),
        wf_v_grid(expr_v_rows(r@)),
        r@.len() == a@.len(),
        forall|j: int| 0 <= j < r@.len() ==> (#[trigger] r@[j])@.len() == bcols,
{
    let ghost av = grid_nums_view(a@);
    let ghost bv = grid_nums_view(b@);
    let ghost want = mat_mul_grid(av, bv, inner as nat, bcols as nat);
    let mut out: Vec<Vec<Expression>> = Vec::new();
    let mut i: usize = 0;
    while i < a.len()
        invariant
            0 <= i <= a@.len(),
            av == grid_nums_view(a@),
            bv == grid_nums_view(b@),
            grid_nums_wf(av),
            grid_nums_wf(bv),
            b@.len() == inner,
            bv.len() == inner,
            forall|j: int| 0 <= j < a@.len() ==> (#[trigger] a@[j])@.len() == inner,
            forall|j: int| 0 <= j < b@.len() ==> (#[trigger] b@[j])@.len() == bcols,
            want == mat_mul_grid(av, bv, inner as nat, bcols as nat),
            out@.len() == i,
            forall|j: int| 0 <= j < i ==> expr_v_seq((#[trigger] out@[j])@) == want.index(j),
            forall|j: int| 0 <= j < i ==> wf_v_seq(expr_v_seq((#[trigger] out@[j])@)),
            forall|j: int| 0 <= j < i ==> (#[trigger] out@[j])@.len() == bcols,
        decreases a@.len() - i,
    {
        let mut row: Vec<Expression> = Vec::new();
        let mut j: usize = 0;
        proof {
            assert(av[i as int] == nums_view(a@[i as int]@));
        }
        while j < bcols
            invariant
                0 <= j <= bcols,
                0 <= i < a@.len(),
                av == grid_nums_view(a@),
                bv == grid_nums_view(b@),
                grid_nums_wf(av),
                grid_nums_wf(bv),
                b@.len() == inner,
                bv.len() == inner,
                forall|jj: int| 0 <= jj < a@.len() ==> (#[trigger] a@[jj])@.len() == inner,
                forall|jj: int| 0 <= jj < b@.len() ==> (#[trigger] b@[jj])@.len() == bcols,
                want == mat_mul_grid(av, bv, inner as nat, bcols as nat),
                row@.len() == j,
                forall|k: int| 0 <= k < j ==> (#[trigger] row@[k])@ == want.index(
                    i as int,
                ).index(k),
                forall|k: int| 0 <= k < j ==> wf_v((#[trigger] row@[k])@),
            decreases bcols - j,
        {
            let ghost col = Seq::new(bv.len(), |k: int| bv[k][j as int]);
            let mut acc = Complex::zero();
            let mut rep = RationalRepresentation::Fraction;
            let mut k: usize = 0;
            while k < inner
                invariant
                    0 <= k <= inner,
                    0 <= i < a@.len(),
                    0 <= j < bcols,
                    av == grid_nums_view(a@),
                    bv == grid_nums_view(b@),
                    grid_nums_wf(av),
                    grid_nums_wf(bv),
                    b@.len() == inner,
                    bv.len() == inner,
                    forall|jj: int| 0 <= jj < a@.len() ==> (#[trigger] a@[jj])@.len() == inner,
                    forall|jj: int| 0 <= jj < b@.len() ==> (#[trigger] b@[jj])@.len() == bcols,
                    col == Seq::new(bv.len(), |kk: int| bv[kk][j as int]),
                    (acc.view_c(), rep) == dot_prefix(av[i as int], col, k as nat),
                    c_wf(acc.view_c()),
                decreases inner - k,
            {
                let x = &a[i][k];
                let y = &b[k][j];
                proof {
                    assert(av[i as int][k as int] == (x.0.view_c(), x.1));
                    assert(bv[k as int] == nums_view(b@[k as int]@));
                    assert(col[k as int] == (y.0.view_c(), y.1));
                    assert(c_wf(av[i as int][k as int].0));
                    assert(c_wf(col[k as int].0)) by {
                        assert(c_wf(bv[k as int][j as int].0));
                    }
                    lemma_c_mul_wf(x.0.view_c(), y.0.view_c());
                    lemma_c_add_wf(
                        acc.view_c(),
                        crate::number::c_mul_v(x.0.view_c(), y.0.view_c()),
                    );
                }
                let t = x.0.mul(&y.0);
                acc = acc.add(&t);
                rep = rep.merge(x.1.merge(y.1));
                k = k + 1;
            }
            let e = demote_e(acc, rep);
            proof {
                assert(e@ == want.index(i as int).index(j as int));
            }
            row.push(e);
            j = j + 1;
        }
        proof {
            crate::expression::lemma_expr_v_seq_len(row@);
            assert forall|k: int| 0 <= k < row@.len() implies #[trigger] expr_v_seq(
                row@,
            )[k] == want.index(i as int).index(k) by {
                crate::expression::lemma_expr_v_seq_index(row@, k);
            }
            assert(expr_v_seq(row@) =~= want.index(i as int));
            crate::expression::lemma_wf_v_seq_iff(expr_v_seq(row@));
            assert forall|k: int| 0 <= k < row@.len() implies wf_v(
                #[trigger] expr_v_seq(row@)[k],
            ) by {
                crate::expression::lemma_expr_v_seq_index(row@, k);
            }
        }
        out.push(row);
        i = i + 1;
    }
    proof {
        crate::expression::lemma_expr_v_rows_len(out@);
        assert forall|j: int| 0 <= j < out@.len() implies #[trigger] expr_v_rows(out@)[j]
            == want.index(j) by {
            crate::expression::lemma_expr_v_rows_index(out@, j);
        }
        assert(expr_v_rows(out@) =~= want);
        crate::expression::lemma_wf_v_grid_iff(expr_v_rows(out@));
        assert forall|j: int| 0 <= j < out@.len() implies wf_v_seq(
            #[trigger] expr_v_rows(out@)[j],
        ) by {
            crate::expression::lemma_expr_v_rows_index(out@, j);
        }
    }
    out
}


/// Reads a fully concrete matrix value with its dimensions.
fn as_con_mat_e(e: &Expression) -> (r: Option<
    (usize, usize, Vec<Vec<(Complex, RationalRepresentation)>>),
>)
    requires
        wf_v(e@),
    ensures
        match r {
            Some((rr, cc, g)) => {
                &&& as_con_mat(e@) == Some(((rr as nat), (cc as nat), grid_nums_view(g@)))
                &&& grid_nums_wf(grid_nums_view(g@))
                &&& g@.len() == rr
                &&& forall|j: int| 0 <= j < g@.len() ==> (#[trigger] g@[j])@.len() == cc
            },
            None => as_con_mat(e@) is None,
        },
{
    match e {
        Expression::Matrix(m) => {
            proof {
                assert(e@ == ExprV::Matrix(
                    (MatV {
                        rows: m.nrows as nat,
                        cols: m.ncols as nat,
                        grid: expr_v_rows(m.entries@),
                    }),
                ));
                crate::expression::lemma_expr_v_rows_len(m.entries@);
            }
            match grid_nums_e(&m.entries) {
                Some(g) => {
                    proof {
                        let gv = expr_v_rows(m.entries@);
                        lemma_grid_nums_props(gv);
                        assert forall|j: int| 0 <= j < g@.len() implies (
                        #[trigger] g@[j])@.len() == m.ncols by {
                            assert(grid_nums_view(g@)[j] == nums_view(g@[j]@));
                            assert(grid_nums_view(g@)[j] == seq_nums(gv[j])->Some_0);
                            lemma_seq_nums_props(gv[j]);
                        }
                    }
                    Some((m.nrows, m.ncols, g))
                },
                None => None,
            }
        },
        Expression::Vector(es) => {
            let ghost esv = expr_v_seq(es@);
            match vec_nums_e(es) {
                Some(ns) => {
                    proof {
                        lemma_seq_nums_props(esv);
                        crate::expression::lemma_expr_v_seq_len(es@);
                    }
                    let mut g: Vec<Vec<(Complex, RationalRepresentation)>> = Vec::new();
                    let mut rest = ns;
                    let ghost full = nums_view(rest@);
                    let ghost n = full.len();
                    while rest.len() > 0
                        invariant
                            g@.len() + rest@.len() == n,
                            full.len() == n,
                            forall|j: int| 0 <= j < rest@.len() ==> nums_view(rest@)[j]
                                == full[g@.len() + j],
                            forall|j: int| 0 <= j < g@.len() ==> nums_view((
                            #[trigger] g@[j])@) == seq![full[j]],
                            forall|j: int| 0 <= j < g@.len() ==> (#[trigger] g@[j])@.len() == 1,
                            nums_wf(full),
                        decreases rest@.len(),
                    {
                        let ghost done = g@.len() as int;
                        let ghost rv = rest@;
                        let p = rest.remove(0);
                        proof {
                            assert(rest@ =~= rv.subrange(1, rv.len() as int));
                            assert(nums_view(rv)[0] == (p.0.view_c(), p.1));
                            assert(nums_view(rv)[0] == full[done]);
                            assert((p.0.view_c(), p.1) == full[done]);
                        }
                        let mut row: Vec<(Complex, RationalRepresentation)> = Vec::new();
                        row.push(p);
                        proof {
                            assert(nums_view(row@) =~= seq![full[done]]);
                        }
                        g.push(row);
                        proof {
                            assert forall|j: int| 0 <= j < rest@.len() implies nums_view(
                                rest@,
                            )[j] == full[g@.len() + j] by {
                                assert(rest@[j] == rv[j + 1]);
                                assert(nums_view(rest@)[j] == (rest@[j].0.view_c(), rest@[j].1));
                                assert(nums_view(rv)[j + 1] == (rv[j + 1].0.view_c(), rv[
                                    j + 1
                                ].1));
                                assert(nums_view(rv)[j + 1] == full[done + 1 + j]);
                            }
                        }
                    }
                    proof {
                        let want = Seq::new(
                            seq_nums(esv)->Some_0.len(),
                            |i: int| seq![seq_nums(esv)->Some_0[i]],
                        );
                        assert(grid_nums_view(g@) =~= want) by {
                            assert forall|j: int| 0 <= j < g@.len() implies grid_nums_view(
                                g@,
                            )[j] == want[j] by {
                                assert(grid_nums_view(g@)[j] == nums_view(g@[j]@));
                            }
                        }
                    }
                    Some((es.len(), 1, g))
                },
                None => None,
            }
        },
        _ => None,
    }
}

// ------------------------------------------------------------------
// Executable folding of single operator nodes.
// ------------------------------------------------------------------

fn fold_negation_e(a: Expression) -> (r: Expression)
    requires
        wf_v(a@),
    ensures
        r@ == fold_negation(a@),
        wf_v(r@),
{
    match as_num_e(&a) {
        Some((z, rep)) => demote_e(z.negate(), rep),
        None => {
            let handled = match &a {
                Expression::Vector(es) => {
                    proof {
                        assert(a@->Vector_0 == expr_v_seq(es@));
                    }
                    match vec_nums_e(es) {
                        Some(ns) => Some(Expression::Vector(neg_vec_e(&ns))),
                        None => None,
                    }
                },
                Expression::Matrix(m) => {
                    proof {
                        assert(a@ == ExprV::Matrix(
                            (MatV {
                                rows: m.nrows as nat,
                                cols: m.ncols as nat,
                                grid: expr_v_rows(m.entries@),
                            }),
                        ));
                    }
                    match grid_nums_e(&m.entries) {
                        Some(g) => {
                            let ghost gv = expr_v_rows(m.entries@);
                            proof {
                                crate::expression::lemma_expr_v_rows_len(m.entries@);
                                lemma_grid_nums_props(gv);
                                assert(grid_nums_view(g@).len() == gv.len());
                                assert(g@.len() == gv.len());
                                assert forall|j: int| 0 <= j < g@.len() implies (
                                #[trigger] g@[j])@.len() == m.ncols by {
                                    assert(grid_nums_view(g@)[j] == nums_view(g@[j]@));
                                    assert(grid_nums_view(g@)[j] == seq_nums(gv[j])->Some_0);
                                    lemma_seq_nums_props(gv[j]);
                                }
                            }
                            let ng = neg_grid_e(&g);
                            proof {
                                crate::expression::lemma_expr_v_rows_len(ng@);
                            }
                            Some(Expression::Matrix(
                                Matrix { nrows: m.nrows, ncols: m.ncols, entries: ng },
                            ))
                        },
                        None => None,
                    }
                },
                _ => None,
            };
            match handled {
                Some(x) => x,
                None => Expression::Negation(Box::new(a)),
            }
        },
    }
}

fn fold_add_sub_e(a: Expression, b: Expression, sub: bool) -> (r: Result<Expression, Error>)
    requires
        wf_v(a@),
        wf_v(b@),
    ensures
        match r {
            Ok(x) => fold_add_sub(a@, b@, sub) == Ok::<ExprV, ErrV>(x@) && wf_v(x@),
            Err(er) => fold_add_sub(a@, b@, sub) == Err::<ExprV, ErrV>(er@),
        },
{
    let na = as_num_e(&a);
    let nb = as_num_e(&b);
    match (na, nb) {
        (Some(x), Some(y)) => {
            proof {
                if sub {
                    lemma_c_sub_wf(x.0.view_c(), y.0.view_c());
                } else {
                    lemma_c_add_wf(x.0.view_c(), y.0.view_c());
                }
            }
            let z = if sub {
                x.0.sub(&y.0)
            } else {
                x.0.add(&y.0)
            };
            Ok(demote_e(z, x.1.merge(y.1)))
        },
        _ => {
            let both_vectors = matches!(&a, Expression::Vector(_)) && matches!(
                &b,
                Expression::Vector(_),
            );
            if both_vectors {
                let (xs, ys) = match (&a, &b) {
                    (Expression::Vector(x), Expression::Vector(y)) => (
                        vec_nums_e(x),
                        vec_nums_e(y),
                    ),
                    _ => (None, None),
                };
                match (xs, ys) {
                    (Some(x), Some(y)) => {
                        proof {
                            crate::expression::lemma_expr_v_seq_len(a->Vector_0@);
                            crate::expression::lemma_expr_v_seq_len(b->Vector_0@);
                        }
                        if x.len() == y.len() {
                            Ok(Expression::Vector(ew_vec_e(&x, &y, sub)))
                        } else {
                            let argdup = b.duplicate();
                            let node = if sub {
                                Expression::Difference(Box::new(a), Box::new(b))
                            } else {
                                Expression::Sum(Box::new(a), Box::new(b))
                            };
                            Err(Error::InvalidArgument { expression: node, argument: argdup })
                        }
                    },
                    _ => {
                        let node = if sub {
                            Expression::Difference(Box::new(a), Box::new(b))
                        } else {
                            Expression::Sum(Box::new(a), Box::new(b))
                        };
                        Ok(node)
                    },
                }
            } else {
                let ma = as_con_mat_e(&a);
                match ma {
                    Some((r1, c1, g1)) => {
                        match as_con_mat_e(&b) {
                            Some((r2, c2, g2)) => {
                                if r1 == r2 && c1 == c2 {
                                    let g = ew_grid_e(&g1, &g2, sub);
                                    Ok(Expression::Matrix(
                                        Matrix { nrows: r1, ncols: c1, entries: g },
                                    ))
                                } else {
                                    let argdup = b.duplicate();
                                    let node = if sub {
                                        Expression::Difference(Box::new(a), Box::new(b))
                                    } else {
                                        Expression::Sum(Box::new(a), Box::new(b))
                                    };
                                    Err(Error::InvalidArgument {
                                        expression: node,
                                        argument: argdup,
                                    })
                                }
                            },
                            None => {
                                let node = if sub {
                                    Expression::Difference(Box::new(a), Box::new(b))
                                } else {
                                    Expression::Sum(Box::new(a), Box::new(b))
                                };
                                Ok(node)
                            },
                        }
                    },
                    None => {
                        let node = if sub {
                            Expression::Difference(Box::new(a), Box::new(b))
                        } else {
                            Expression::Sum(Box::new(a), Box::new(b))
                        };
                        Ok(node)
                    },
                }
            }
        },
    }
}

fn fold_product_e(a: Expression, b: Expression) -> (r: Result<Expression, Error>)
    requires
        wf_v(a@),
        wf_v(b@),
    ensures
        match r {
            Ok(x) => fold_product(a@, b@) == Ok::<ExprV, ErrV>(x@) && wf_v(x@),
            Err(er) => fold_product(a@, b@) == Err::<ExprV, ErrV>(er@),
        },
{
    let na = as_num_e(&a);
    let nb = as_num_e(&b);
    match (na, nb) {
        (Some(x), Some(y)) => {
            proof {
                lemma_c_mul_wf(x.0.view_c(), y.0.view_c());
            }
            let z = x.0.mul(&y.0);
            Ok(demote_e(z, x.1.merge(y.1)))
        },
        (Some(x), None) => {
            match &b {
                Expression::Vector(es) => {
                    match vec_nums_e(es) {
                        Some(ns) => Ok(Expression::Vector(scale_vec_e(&x, &ns))),
                        None => Ok(Expression::Product(Box::new(a), Box::new(b))),
                    }
                },
                Expression::Matrix(m) => {
                    proof {
                        assert(b@ == ExprV::Matrix(
                            (MatV {
                                rows: m.nrows as nat,
                                cols: m.ncols as nat,
                                grid: expr_v_rows(m.entries@),
                            }),
                        ));
                    }
                    match grid_nums_e(&m.entries) {
                        Some(g) => {
                            let ghost gv = expr_v_rows(m.entries@);
                            proof {
                                crate::expression::lemma_expr_v_rows_len(m.entries@);
                                lemma_grid_nums_props(gv);
                                assert(g@.len() == gv.len());
                                assert forall|j: int| 0 <= j < g@.len() implies (
                                #[trigger] g@[j])@.len() == m.ncols by {
                                    assert(grid_nums_view(g@)[j] == nums_view(g@[j]@));
                                    assert(grid_nums_view(g@)[j] == seq_nums(gv[j])->Some_0);
                                    lemma_seq_nums_props(gv[j]);
                                }
                            }
                            let sg = scale_grid_e(&x, &g);
                            proof {
                                crate::expression::lemma_expr_v_rows_len(sg@);
                            }
                            Ok(Expression::Matrix(
                                Matrix { nrows: m.nrows, ncols: m.ncols, entries: sg },
                            ))
                        },
                        None => Ok(Expression::Product(Box::new(a), Box::new(b))),
                    }
                },
                _ => Ok(Expression::Product(Box::new(a), Box::new(b))),
            }
        },
        (None, Some(y)) => {
            match &a {
                Expression::Vector(es) => {
                    match vec_nums_e(es) {
                        Some(ns) => Ok(Expression::Vector(scale_vec_e(&y, &ns))),
                        None => Ok(Expression::Product(Box::new(a), Box::new(b))),
                    }
                },
                Expression::Matrix(m) => {
                    proof {
                        assert(a@ == ExprV::Matrix(
                            (MatV {
                                rows: m.nrows as nat,
                                cols: m.ncols as nat,
                                grid: expr_v_rows(m.entries@),
                            }),
                        ));
                    }
                    match grid_nums_e(&m.entries) {
                        Some(g) => {
                            let ghost gv = expr_v_rows(m.entries@);
                            proof {
                                crate::expression::lemma_expr_v_rows_len(m.entries@);
                                lemma_grid_nums_props(gv);
                                assert(g@.len() == gv.len());
                                assert forall|j: int| 0 <= j < g@.len() implies (
                                #[trigger] g@[j])@.len() == m.ncols by {
                                    assert(grid_nums_view(g@)[j] == nums_view(g@[j]@));
                                    assert(grid_nums_view(g@)[j] == seq_nums(gv[j])->Some_0);
                                    lemma_seq_nums_props(gv[j]);
                                }
                            }
                            let sg = scale_grid_e(&y, &g);
                            proof {
                                crate::expression::lemma_expr_v_rows_len(sg@);
                            }
                            Ok(Expression::Matrix(
                                Matrix { nrows: m.nrows, ncols: m.ncols, entries: sg },
                            ))
                        },
                        None => Ok(Expression::Product(Box::new(a), Box::new(b))),
                    }
                },
                _ => Ok(Expression::Product(Box::new(a), Box::new(b))),
            }
        },
        (None, None) => {
            match as_con_mat_e(&a) {
                Some((r1, c1, g1)) => {
                    match as_con_mat_e(&b) {
                        Some((r2, c2, g2)) => {
                            if c1 == r2 {
                                let g = mat_mul_e(&g1, &g2, r2, c2);
                                proof {
                                    crate::expression::lemma_expr_v_rows_len(g@);
                                }
                                Ok(Expression::Matrix(
                                    Matrix { nrows: r1, ncols: c2, entries: g },
                                ))
                            } else {
                                let argdup = b.duplicate();
                                Err(Error::InvalidArgument {
                                    expression: Expression::Product(Box::new(a), Box::new(b)),
                                    argument: argdup,
                                })
                            }
                        },
                        None => Ok(Expression::Product(Box::new(a), Box::new(b))),
                    }
                },
                None => Ok(Expression::Product(Box::new(a), Box::new(b))),
            }
        },
    }
}

fn fold_quotient_e(a: Expression, b: Expression) -> (r: Result<Expression, Error>)
    requires
        wf_v(a@),
        wf_v(b@),
    ensures
        match r {
            Ok(x) => fold_quotient(a@, b@) == Ok::<ExprV, ErrV>(x@) && wf_v(x@),
            Err(er) => fold_quotient(a@, b@) == Err::<ExprV, ErrV>(er@),
        },
{
    let na = as_num_e(&a);
    let nb = as_num_e(&b);
    match (na, nb) {
        (Some(x), Some(y)) => {
            if y.0.is_zero() {
                Err(Error::DivisionByZero {
                    expression: Expression::Quotient(Box::new(a), Box::new(b)),
                })
            } else {
                proof {
                    crate::number::lemma_c_div_wf(x.0.view_c(), y.0.view_c());
                }
                let z = x.0.div(&y.0);
                Ok(demote_e(z, x.1.merge(y.1)))
            }
        },
        _ => Ok(Expression::Quotient(Box::new(a), Box::new(b))),
    }
}

fn fold_remainder_e(a: Expression, b: Expression) -> (r: Result<Expression, Error>)
    requires
        wf_v(a@),
        wf_v(b@),
    ensures
        match r {
            Ok(x) => fold_remainder(a@, b@) == Ok::<ExprV, ErrV>(x@) && wf_v(x@),
            Err(er) => fold_remainder(a@, b@) == Err::<ExprV, ErrV>(er@),
        },
{
    let na = as_num_e(&a);
    let nb = as_num_e(&b);
    match (na, nb) {
        (Some(x), Some(y)) => {
            if crate::number::rat_is_zero(&x.0.im) && crate::number::rat_is_zero(&y.0.im) {
                if crate::number::rat_is_zero(&y.0.re) {
                    Err(Error::DivisionByZero {
                        expression: Expression::Remainder(Box::new(a), Box::new(b)),
                    })
                } else {
                    proof {
                        lemma_rat_rem_wf(
                            crate::number::rat_v(x.0.re),
                            crate::number::rat_v(y.0.re),
                        );
                    }
                    let rr = crate::number::rat_rem(&x.0.re, &y.0.re);
                    let z = Complex { re: rr, im: rat_zero() };
                    Ok(demote_e(z, x.1.merge(y.1)))
                }
            } else {
                Ok(Expression::Remainder(Box::new(a), Box::new(b)))
            }
        },
        _ => Ok(Expression::Remainder(Box::new(a), Box::new(b))),
    }
}

/// `z` to the `k`-th power, by repeated multiplication.
fn complex_pow_e(z: &Complex, k: u64) -> (r: Complex)
    requires
        c_wf(z.view_c()),
    ensures
        r.view_c() == c_pow_v(z.view_c(), k as nat),
        c_wf(r.view_c()),
{
    let mut acc = Complex::one();
    let mut i: u64 = 0;
    while i < k
        invariant
            0 <= i <= k,
            c_wf(z.view_c()),
            acc.view_c() == c_pow_v(z.view_c(), i as nat),
            c_wf(acc.view_c()),
        decreases k - i,
    {
        proof {
            lemma_c_mul_wf(acc.view_c(), z.view_c());
        }
        acc = acc.mul(z);
        i = i + 1;
    }
    acc
}

fn fold_power_e(a: Expression, b: Expression) -> (r: Result<Expression, Error>)
    requires
        wf_v(a@),
        wf_v(b@),
    ensures
        match r {
            Ok(x) => fold_power(a@, b@) == Ok::<ExprV, ErrV>(x@) && wf_v(x@),
            Err(er) => fold_power(a@, b@) == Err::<ExprV, ErrV>(er@),
        },
{
    let na = as_num_e(&a);
    let nb = as_num_e(&b);
    match (na, nb) {
        (Some(x), Some(y)) => {
            if crate::number::rat_is_zero(&y.0.im) && crate::number::rat_is_one_denom(&y.0.re) {
                let k = crate::number::rat_numer_big(&y.0.re);
                let zero = crate::number::big_from_u64(0);
                let rep = x.1.merge(y.1);
                if !crate::number::big_lt(&k, &zero) {
                    match crate::number::big_to_u64(&k) {
                        Some(kk) => Ok(demote_e(complex_pow_e(&x.0, kk), rep)),
                        None => Ok(Expression::Power(Box::new(a), Box::new(b))),
                    }
                } else {
                    let nk = crate::number::big_neg(&k);
                    match crate::number::big_to_u64(&nk) {
                        Some(kk) => {
                            if x.0.is_zero() {
                                Err(Error::DivisionByZero {
                                    expression: Expression::Power(Box::new(a), Box::new(b)),
                                })
                            } else {
                                proof {
                                    crate::number::lemma_c_div_wf(
                                        c_one_v(),
                                        x.0.view_c(),
                                    );
                                }
                                let one = Complex::one();
                                let recip = one.div(&x.0);
                                Ok(demote_e(complex_pow_e(&recip, kk), rep))
                            }
                        },
                        None => Ok(Expression::Power(Box::new(a), Box::new(b))),
                    }
                }
            } else {
                Ok(Expression::Power(Box::new(a), Box::new(b)))
            }
        },
        _ => Ok(Expression::Power(Box::new(a), Box::new(b))),
    }
}

fn fold_comparison_e(op: usize, a: Expression, b: Expression) -> (r: Expression)
    requires
        wf_v(a@),
        wf_v(b@),
        op < 6,
    ensures
        r@ == fold_comparison(op as int, a@, b@),
        wf_v(r@),
{
    let na = as_num_e(&a);
    let nb = as_num_e(&b);
    match (na, nb) {
        (Some(x), Some(y)) => {
            if op == 0 {
                Expression::Boolean(x.0.value_eq(&y.0))
            } else if op == 1 {
                Expression::Boolean(!x.0.value_eq(&y.0))
            } else if crate::number::rat_is_zero(&x.0.im) && crate::number::rat_is_zero(
                &y.0.im,
            ) {
                let lt_ab = crate::number::rat_lt(&x.0.re, &y.0.re);
                let lt_ba = crate::number::rat_lt(&y.0.re, &x.0.re);
                if op == 2 {
                    Expression::Boolean(lt_ab)
                } else if op == 3 {
                    Expression::Boolean(!lt_ba)
                } else if op == 4 {
                    Expression::Boolean(lt_ba)
                } else {
                    Expression::Boolean(!lt_ab)
                }
            } else {
                comparison_node_e(op, a, b)
            }
        },
        _ => comparison_node_e(op, a, b),
    }
}

fn comparison_node_e(op: usize, a: Expression, b: Expression) -> (r: Expression)
    requires
        op < 6,
        wf_v(a@),
        wf_v(b@),
    ensures
        r@ == crate::parse::comparison_node(op as int, a@, b@),
        wf_v(r@),
{
    if op == 0 {
        Expression::Equal(Box::new(a), Box::new(b))
    } else if op == 1 {
        Expression::NotEqual(Box::new(a), Box::new(b))
    } else if op == 2 {
        Expression::LessThan(Box::new(a), Box::new(b))
    } else if op == 3 {
        Expression::LessThanOrEqual(Box::new(a), Box::new(b))
    } else if op == 4 {
        Expression::GreaterThan(Box::new(a), Box::new(b))
    } else {
        Expression::GreaterThanOrEqual(Box::new(a), Box::new(b))
    }
}


// ------------------------------------------------------------------
// The executable evaluator.
// ------------------------------------------------------------------

fn eval_vec_e(es: &Vec<Expression>, ctx: &Context, depth: u64) -> (r: Result<
    Vec<Expression>,
    Error,
>)
    requires
        wf_v_seq(expr_v_seq(es@)),
        ctx.inv(),
    ensures
        match r {
            Ok(v) => eval_seq_from(expr_v_seq(es@), 0, ctx@, depth as nat) == Ok::<
                Seq<ExprV>,
                ErrV,
            >(expr_v_seq(v@)) && wf_v_seq(expr_v_seq(v@)),
            Err(er) => eval_seq_from(expr_v_seq(es@), 0, ctx@, depth as nat) == Err::<
                Seq<ExprV>,
                ErrV,
            >(er@),
        },
    decreases depth, *es, 0nat,
{
    let ghost esv = expr_v_seq(es@);
    proof {
        crate::expression::lemma_expr_v_seq_len(es@);
    }
    let mut out: Vec<Expression> = Vec::new();
    let mut i: usize = 0;
    proof {
        assert(eval_seq_from(esv, esv.len() as int, ctx@, depth as nat) == Ok::<
            Seq<ExprV>,
            ErrV,
        >(Seq::empty()));
    }
    while i < es.len()
        invariant
            0 <= i <= es@.len(),
            esv == expr_v_seq(es@),
            esv.len() == es@.len(),
            wf_v_seq(esv),
            ctx.inv(),
            out@.len() == i,
            forall|j: int| 0 <= j < i ==> wf_v((#[trigger] out@[j])@),
            (match eval_seq_from(esv, i as int, ctx@, depth as nat) {
                Ok(rest) => eval_seq_from(esv, 0, ctx@, depth as nat) == Ok::<
                    Seq<ExprV>,
                    ErrV,
                >(expr_v_seq(out@) + rest),
                Err(er) => eval_seq_from(esv, 0, ctx@, depth as nat) == Err::<
                    Seq<ExprV>,
                    ErrV,
                >(er),
            }),
        decreases es@.len() - i,
    {
        proof {
            assert(decreases_to!(*es => es@));
            assert(decreases_to!(es@ => es@[i as int]));
            crate::expression::lemma_expr_v_seq_index(es@, i as int);
            crate::expression::lemma_wf_v_seq_index(esv, i as int);
        }
        let ghost before = expr_v_seq(out@);
        match eval_depth(&es[i], ctx, depth) {
            Ok(v) => {
                proof {
                    crate::parse::lemma_expr_v_seq_snoc(out@, v);
                }
                out.push(v);
                proof {
                    match eval_seq_from(esv, i as int + 1, ctx@, depth as nat) {
                        Ok(rest) => {
                            assert(expr_v_seq(out@) + rest =~= before + (seq![
                                eval_s(esv[i as int], ctx@, depth as nat)->Ok_0,
                            ] + rest));
                        },
                        Err(_) => {},
                    }
                }
            },
            Err(er) => {
                return Err(er);
            },
        }
        i = i + 1;
    }
    proof {
        assert(eval_seq_from(esv, 0, ctx@, depth as nat) == Ok::<Seq<ExprV>, ErrV>(
            expr_v_seq(out@) + Seq::empty(),
        ));
        assert(expr_v_seq(out@) + Seq::<ExprV>::empty() =~= expr_v_seq(out@));
        crate::expression::lemma_wf_v_seq_iff(expr_v_seq(out@));
        crate::expression::lemma_expr_v_seq_len(out@);
        assert forall|j: int| 0 <= j < out@.len() implies wf_v(
            #[trigger] expr_v_seq(out@)[j],
        ) by {
            crate::expression::lemma_expr_v_seq_index(out@, j);
        }
    }
    Ok(out)
}

fn eval_rows_e(rows: &Vec<Vec<Expression>>, ctx: &Context, depth: u64) -> (r: Result<
    Vec<Vec<Expression>>,
    Error,
>)
    requires
        wf_v_grid(expr_v_rows(rows@)),
        ctx.inv(),
    ensures
        match r {
            Ok(v) => eval_rows_from(expr_v_rows(rows@), 0, ctx@, depth as nat) == Ok::<
                Seq<Seq<ExprV>>,
                ErrV,
            >(expr_v_rows(v@)) && wf_v_grid(expr_v_rows(v@)) && v@.len() == rows@.len()
                && (forall|j: int| 0 <= j < v@.len() ==> (#[trigger] v@[j])@.len()
                == rows@[j]@.len()),
            Err(er) => eval_rows_from(expr_v_rows(rows@), 0, ctx@, depth as nat) == Err::<
                Seq<Seq<ExprV>>,
                ErrV,
            >(er@),
        },
    decreases depth, *rows, 1nat,
{
    let ghost g = expr_v_rows(rows@);
    proof {
        crate::expression::lemma_expr_v_rows_len(rows@);
    }
    let mut out: Vec<Vec<Expression>> = Vec::new();
    let mut i: usize = 0;
    proof {
        assert(eval_rows_from(g, g.len() as int, ctx@, depth as nat) == Ok::<
            Seq<Seq<ExprV>>,
            ErrV,
        >(Seq::empty()));
    }
    while i < rows.len()
        invariant
            0 <= i <= rows@.len(),
            g == expr_v_rows(rows@),
            g.len() == rows@.len(),
            wf_v_grid(g),
            ctx.inv(),
            out@.len() == i,
            forall|j: int| 0 <= j < i ==> wf_v_seq(expr_v_seq((#[trigger] out@[j])@)),
            forall|j: int| 0 <= j < i ==> (#[trigger] out@[j])@.len() == rows@[j]@.len(),
            (match eval_rows_from(g, i as int, ctx@, depth as nat) {
                Ok(rest) => eval_rows_from(g, 0, ctx@, depth as nat) == Ok::<
                    Seq<Seq<ExprV>>,
                    ErrV,
                >(expr_v_rows(out@) + rest),
                Err(er) => eval_rows_from(g, 0, ctx@, depth as nat) == Err::<
                    Seq<Seq<ExprV>>,
                    ErrV,
                >(er),
            }),
        decreases rows@.len() - i,
    {
        proof {
            assert(decreases_to!(*rows => rows@));
            assert(decreases_to!(rows@ => rows@[i as int]));
            crate::expression::lemma_expr_v_rows_index(rows@, i as int);
            crate::expression::lemma_wf_v_grid_index(g, i as int);
        }
        let ghost before = expr_v_rows(out@);
        match eval_vec_e(&rows[i], ctx, depth) {
            Ok(v) => {
                proof {
                    lemma_expr_v_rows_snoc(out@, v);
                    crate::expression::lemma_expr_v_seq_len(rows@[i as int]@);
                    crate::expression::lemma_expr_v_seq_len(v@);
                    lemma_eval_seq_len(g[i as int], 0, ctx@, depth as nat);
                }
                out.push(v);
                proof {
                    match eval_rows_from(g, i as int + 1, ctx@, depth as nat) {
                        Ok(rest) => {
                            assert(expr_v_rows(out@) + rest =~= before + (seq![
                                eval_seq_from(g[i as int], 0, ctx@, depth as nat)->Ok_0,
                            ] + rest));
                        },
                        Err(_) => {},
                    }
                }
            },
            Err(er) => {
                return Err(er);
            },
        }
        i = i + 1;
    }
    proof {
        assert(eval_rows_from(g, 0, ctx@, depth as nat) == Ok::<Seq<Seq<ExprV>>, ErrV>(
            expr_v_rows(out@) + Seq::empty(),
        ));
        assert(expr_v_rows(out@) + Seq::<Seq<ExprV>>::empty() =~= expr_v_rows(out@));
        crate::expression::lemma_wf_v_grid_iff(expr_v_rows(out@));
        crate::expression::lemma_expr_v_rows_len(out@);
        assert forall|j: int| 0 <= j < out@.len() implies wf_v_seq(
            #[trigger] expr_v_rows(out@)[j],
        ) by {
            crate::expression::lemma_expr_v_rows_index(out@, j);
        }
    }
    Ok(out)
}

proof fn lemma_expr_v_rows_snoc(a: Seq<Vec<Expression>>, x: Vec<Expression>)
    ensures
        expr_v_rows(a.push(x)) == expr_v_rows(a).push(expr_v_seq(x@)),
    decreases a,
{
    if a.len() == 0 {
        assert(expr_v_rows(Seq::<Vec<Expression>>::empty()) =~= Seq::<Seq<ExprV>>::empty());
        assert(a.push(x).drop_first() =~= Seq::<Vec<Expression>>::empty());
        assert(a =~= Seq::<Vec<Expression>>::empty());
        assert(a.push(x)[0] == x);
        assert(expr_v_rows(a.push(x)) =~= expr_v_rows(a).push(expr_v_seq(x@)));
    } else {
        assert(a.push(x).drop_first() =~= a.drop_first().push(x));
        assert(a.push(x)[0] == a[0]);
        lemma_expr_v_rows_snoc(a.drop_first(), x);
        assert(expr_v_rows(a.push(x)) =~= expr_v_rows(a).push(expr_v_seq(x@)));
    }
}

proof fn lemma_eval_seq_len(es: Seq<ExprV>, i: int, ctx: Map<Seq<char>, ExprV>, depth: nat)
    requires
        0 <= i <= es.len(),
    ensures
        eval_seq_from(es, i, ctx, depth) is Ok ==> eval_seq_from(
            es,
            i,
            ctx,
            depth,
        )->Ok_0.len() == es.len() - i,
    decreases es.len() - i,
{
    if i < es.len() {
        lemma_eval_seq_len(es, i + 1, ctx, depth);
    }
}

/// Builds the binding context of a user-defined function invocation:
/// each parameter bound to its argument.
fn bind_params_e(params: &Vec<String>, args: &Vec<Expression>) -> (r: Context)
    requires
        params@.len() == args@.len(),
        wf_v_seq(expr_v_seq(args@)),
    ensures
        r@ == bind_params(
            params@.map_values(|p: String| p@),
            expr_v_seq(args@),
        ),
        r.inv(),
{
    let ghost pv = params@.map_values(|p: String| p@);
    let ghost av = expr_v_seq(args@);
    proof {
        crate::expression::lemma_expr_v_seq_len(args@);
    }
    let mut ctx = Context::new();
    let mut i: usize = 0;
    proof {
        assert(pv.subrange(0, 0) =~= Seq::<Seq<char>>::empty());
        assert(av.subrange(0, 0) =~= Seq::<ExprV>::empty());
    }
    while i < params.len()
        invariant
            0 <= i <= params@.len(),
            params@.len() == args@.len(),
            pv == params@.map_values(|p: String| p@),
            av == expr_v_seq(args@),
            av.len() == args@.len(),
            wf_v_seq(av),
            ctx.inv(),
            ctx@ == bind_params(pv.subrange(0, i as int), av.subrange(0, i as int)),
        decreases params@.len() - i,
    {
        proof {
            crate::expression::lemma_expr_v_seq_index(args@, i as int);
            crate::expression::lemma_wf_v_seq_index(av, i as int);
        }
        let name = params[i].clone();
        let value = args[i].duplicate();
        ctx.insert(name, value);
        proof {
            let p1 = pv.subrange(0, i as int + 1);
            let a1 = av.subrange(0, i as int + 1);
            assert(p1.drop_last() =~= pv.subrange(0, i as int));
            assert(a1.drop_last() =~= av.subrange(0, i as int));
            assert(p1.last() == pv[i as int]);
            assert(a1.last() == av[i as int]);
        }
        i = i + 1;
    }
    proof {
        assert(pv.subrange(0, pv.len() as int) =~= pv);
        assert(av.subrange(0, av.len() as int) =~= av);
    }
    ctx
}

/// The operator node with the given index over two children:
/// `+  -  *  /  %  ^  ==  !=  <  <=  >  >=  &&  ||`.
pub open spec fn binop_node(op: int, a: ExprV, b: ExprV) -> ExprV {
    if op == 0 {
        ExprV::Sum(Box::new(a), Box::new(b))
    } else if op == 1 {
        ExprV::Difference(Box::new(a), Box::new(b))
    } else if op == 2 {
        ExprV::Product(Box::new(a), Box::new(b))
    } else if op == 3 {
        ExprV::Quotient(Box::new(a), Box::new(b))
    } else if op == 4 {
        ExprV::Remainder(Box::new(a), Box::new(b))
    } else if op == 5 {
        ExprV::Power(Box::new(a), Box::new(b))
    } else if op < 12 {
        crate::parse::comparison_node(op - 6, a, b)
    } else if op == 12 {
        ExprV::And(Box::new(a), Box::new(b))
    } else {
        ExprV::Or(Box::new(a), Box::new(b))
    }
}

/// The folding rule the operator with the given index uses.
pub open spec fn fold_binop(op: int, a: ExprV, b: ExprV) -> Result<ExprV, ErrV> {
    if op == 0 {
        fold_add_sub(a, b, false)
    } else if op == 1 {
        fold_add_sub(a, b, true)
    } else if op == 2 {
        fold_product(a, b)
    } else if op == 3 {
        fold_quotient(a, b)
    } else if op == 4 {
        fold_remainder(a, b)
    } else if op == 5 {
        fold_power(a, b)
    } else if op < 12 {
        Ok(fold_comparison(op - 6, a, b))
    } else if op == 12 {
        Ok(fold_and(a, b))
    } else {
        Ok(fold_or(a, b))
    }
}

/// Folds one binary operator node over evaluated children.
#[verifier::rlimit(100)]
#[verifier::spinoff_prover]
fn fold_binop_e(op: usize, a: Expression, b: Expression) -> (r: Result<Expression, Error>)
    requires
        op < 14,
        wf_v(a@),
        wf_v(b@),
    ensures
        match r {
            Ok(x) => fold_binop(op as int, a@, b@) == Ok::<ExprV, ErrV>(x@) && wf_v(x@),
            Err(er) => fold_binop(op as int, a@, b@) == Err::<ExprV, ErrV>(er@),
        },
{
    if op == 0 {
        fold_add_sub_e(a, b, false)
    } else if op == 1 {
        fold_add_sub_e(a, b, true)
    } else if op == 2 {
        fold_product_e(a, b)
    } else if op == 3 {
        fold_quotient_e(a, b)
    } else if op == 4 {
        fold_remainder_e(a, b)
    } else if op == 5 {
        fold_power_e(a, b)
    } else if op < 12 {
        Ok(fold_comparison_e(op - 6, a, b))
    } else if op == 12 {
        let both = matches!(&a, Expression::Boolean(_)) && matches!(&b, Expression::Boolean(_));
        if both {
            let x = match &a {
                Expression::Boolean(v) => *v,
                _ => false,
            };
            let y = match &b {
                Expression::Boolean(v) => *v,
                _ => false,
            };
            Ok(Expression::Boolean(x && y))
        } else {
            Ok(Expression::And(Box::new(a), Box::new(b)))
        }
    } else {
        let both = matches!(&a, Expression::Boolean(_)) && matches!(&b, Expression::Boolean(_));
        if both {
            let x = match &a {
                Expression::Boolean(v) => *v,
                _ => false,
            };
            let y = match &b {
                Expression::Boolean(v) => *v,
                _ => false,
            };
            Ok(Expression::Boolean(x || y))
        } else {
            Ok(Expression::Or(Box::new(a), Box::new(b)))
        }
    }
}

/// Evaluates one binary operator node: both children first, then the
/// operator's folding rule.
#[verifier::rlimit(100)]
#[verifier::spinoff_prover]
fn eval_binop_e(
    op: usize,
    e: &Expression,
    a: &Expression,
    b: &Expression,
    ctx: &Context,
    depth: u64,
) -> (r: Result<Expression, Error>)
    requires
        op < 14,
        wf_v(a@),
        wf_v(b@),
        ctx.inv(),
        e@ == binop_node(op as int, a@, b@),
        decreases_to!(*e => *a),
        decreases_to!(*e => *b),
    ensures
        match r {
            Ok(v) => eval_s(e@, ctx@, depth as nat) == Ok::<ExprV, ErrV>(v@) && wf_v(v@),
            Err(er) => eval_s(e@, ctx@, depth as nat) == Err::<ExprV, ErrV>(er@),
        },
    decreases depth, *e, 1nat,
{
    let a2 = match eval_depth(a, ctx, depth) {
        Ok(v) => v,
        Err(er) => {
            return Err(er);
        },
    };
    let b2 = match eval_depth(b, ctx, depth) {
        Ok(v) => v,
        Err(er) => {
            return Err(er);
        },
    };
    fold_binop_e(op, a2, b2)
}

/// Evaluates a call node: callee and arguments first, then either the
/// bound implementation runs or the call is rebuilt symbolically.
#[verifier::rlimit(100)]
#[verifier::spinoff_prover]
fn eval_call_e(
    e: &Expression,
    f: &Expression,
    args: &Vec<Expression>,
    ctx: &Context,
    depth: u64,
) -> (r: Result<Expression, Error>)
    requires
        wf_v(f@),
        wf_v_seq(expr_v_seq(args@)),
        ctx.inv(),
        e@ == ExprV::Function(Box::new(f@), expr_v_seq(args@)),
        decreases_to!(*e => *f),
        decreases_to!(*e => *args),
    ensures
        match r {
            Ok(v) => eval_s(e@, ctx@, depth as nat) == Ok::<ExprV, ErrV>(v@) && wf_v(v@),
            Err(er) => eval_s(e@, ctx@, depth as nat) == Err::<ExprV, ErrV>(er@),
        },
    decreases depth, *e, 1nat,
{
    let f2 = match eval_depth(f, ctx, depth) {
        Ok(v) => v,
        Err(er) => {
            return Err(er);
        },
    };
    let args2 = match eval_vec_e(args, ctx, depth) {
        Ok(v) => v,
        Err(er) => {
            return Err(er);
        },
    };
    proof {
        crate::expression::lemma_expr_v_seq_len(args2@);
        crate::expression::lemma_expr_v_seq_len(args@);
    }
    match &f2 {
        Expression::FunctionValue(_, FunctionBody::Builtin(bf)) => {
            let bfc = *bf;
            let rebuilt = Expression::Function(
                Box::new(f2.duplicate()),
                crate::expression::duplicate_vec_pub(&args2),
            );
            match crate::functions::apply_builtin_e(bfc, rebuilt, &args2) {
                Err(er) => Err(er),
                Ok((x, again)) => {
                    if again {
                        if depth == 0 {
                            let rb2 = Expression::Function(Box::new(f2), args2);
                            Err(Error::RecursionDepthExceeded { expression: rb2 })
                        } else {
                            eval_depth(&x, ctx, depth - 1)
                        }
                    } else {
                        Ok(x)
                    }
                },
            }
        },
        Expression::FunctionValue(_, FunctionBody::UserDefined(params, body)) => {
            if args2.len() != params.len() {
                let rb = Expression::Function(
                    Box::new(f2.duplicate()),
                    crate::expression::duplicate_vec_pub(&args2),
                );
                let pl = params.len();
                Err(Error::InvalidNumberOfArguments {
                    expression: rb,
                    min_number: pl,
                    max_number: pl,
                    given_number: args2.len(),
                })
            } else if depth == 0 {
                let rb = Expression::Function(
                    Box::new(f2.duplicate()),
                    crate::expression::duplicate_vec_pub(&args2),
                );
                Err(Error::RecursionDepthExceeded { expression: rb })
            } else {
                let inner = bind_params_e(params, &args2);
                let bd = body.duplicate();
                eval_depth(&bd, &inner, depth - 1)
            }
        },
        _ => Ok(Expression::Function(Box::new(f2), args2)),
    }
}

/// Evaluates an expression under a context with the given depth budget;
/// returns exactly what the evaluation rules describe.
#[verifier::rlimit(100)]
#[verifier::spinoff_prover]
fn eval_depth(e: &Expression, ctx: &Context, depth: u64) -> (r: Result<Expression, Error>)
    requires
        wf_v(e@),
        ctx.inv(),
    ensures
        match r {
            Ok(v) => eval_s(e@, ctx@, depth as nat) == Ok::<ExprV, ErrV>(v@) && wf_v(v@),
            Err(er) => eval_s(e@, ctx@, depth as nat) == Err::<ExprV, ErrV>(er@),
        },
    decreases depth, *e, 2nat,
{
    match e {
        Expression::Variable(x) => {
            match ctx.get(x) {
                Some(bound) => {
                    if depth == 0 {
                        Err(Error::RecursionDepthExceeded { expression: e.duplicate() })
                    } else {
                        let bd = bound.duplicate();
                        eval_depth(&bd, ctx, depth - 1)
                    }
                },
                None => Ok(e.duplicate()),
            }
        },
        Expression::Function(f, args) => {
            proof {
                assert(decreases_to!(*e => e->Function_0));
                assert(decreases_to!(*e => e->Function_1));
                assert(e->Function_1 == *args);
            }
            eval_call_e(e, f, args, ctx, depth)
        },
        Expression::Integer(_) => Ok(e.duplicate()),
        Expression::Rational(x, rep) => {
            let z = Complex { re: rat_clone(x), im: rat_zero() };
            Ok(demote_e(z, *rep))
        },
        Expression::Complex(z, rep) => Ok(demote_e(z.duplicate(), *rep)),
        Expression::Vector(es) => {
            proof {
                assert(decreases_to!(*e => e->Vector_0));
                assert(e->Vector_0 == *es);
            }
            match eval_vec_e(es, ctx, depth) {
                Ok(v) => Ok(Expression::Vector(v)),
                Err(er) => Err(er),
            }
        },
        Expression::Matrix(m) => {
            proof {
                assert(decreases_to!(*e => e->Matrix_0));
                assert(e->Matrix_0 == *m);
                assert(decreases_to!(*m => m.entries));
                crate::expression::lemma_expr_v_rows_len(m.entries@);
            }
            match eval_rows_e(&m.entries, ctx, depth) {
                Ok(g) => {
                    proof {
                        crate::expression::lemma_expr_v_rows_len(g@);
                        assert forall|j: int| 0 <= j < g@.len() implies #[trigger] expr_v_rows(
                            g@,
                        )[j].len() == m.ncols by {
                            crate::expression::lemma_expr_v_rows_index(g@, j);
                            crate::expression::lemma_expr_v_seq_len(g@[j]@);
                            crate::expression::lemma_expr_v_rows_index(m.entries@, j);
                            crate::expression::lemma_expr_v_seq_len(m.entries@[j]@);
                        }
                    }
                    Ok(Expression::Matrix(
                        Matrix { nrows: m.nrows, ncols: m.ncols, entries: g },
                    ))
                },
                Err(er) => Err(er),
            }
        },
        Expression::Boolean(b) => Ok(Expression::Boolean(*b)),
        Expression::FunctionValue(_, _) => Ok(e.duplicate()),
        Expression::Negation(a) => {
            match eval_depth(a, ctx, depth) {
                Ok(a2) => Ok(fold_negation_e(a2)),
                Err(er) => Err(er),
            }
        },
        Expression::Not(a) => {
            match eval_depth(a, ctx, depth) {
                Ok(a2) => {
                    let folded = match &a2 {
                        Expression::Boolean(v) => Expression::Boolean(!*v),
                        _ => Expression::Not(Box::new(a2)),
                    };
                    Ok(folded)
                },
                Err(er) => Err(er),
            }
        },
        Expression::Sum(a, b) => eval_binop_e(0, e, a, b, ctx, depth),
        Expression::Difference(a, b) => eval_binop_e(1, e, a, b, ctx, depth),
        Expression::Product(a, b) => eval_binop_e(2, e, a, b, ctx, depth),
        Expression::Quotient(a, b) => eval_binop_e(3, e, a, b, ctx, depth),
        Expression::Remainder(a, b) => eval_binop_e(4, e, a, b, ctx, depth),
        Expression::Power(a, b) => eval_binop_e(5, e, a, b, ctx, depth),
        Expression::Equal(a, b) => eval_binop_e(6, e, a, b, ctx, depth),
        Expression::NotEqual(a, b) => eval_binop_e(7, e, a, b, ctx, depth),
        Expression::LessThan(a, b) => eval_binop_e(8, e, a, b, ctx, depth),
        Expression::LessThanOrEqual(a, b) => eval_binop_e(9, e, a, b, ctx, depth),
        Expression::GreaterThan(a, b) => eval_binop_e(10, e, a, b, ctx, depth),
        Expression::GreaterThanOrEqual(a, b) => eval_binop_e(11, e, a, b, ctx, depth),
        Expression::And(a, b) => eval_binop_e(12, e, a, b, ctx, depth),
        Expression::Or(a, b) => eval_binop_e(13, e, a, b, ctx, depth),
    }
}

impl Expression {
    /// Evaluates the expression under the given binding context by
    /// best-effort simplification: sub-expressions whose values are
    /// exactly determined fold to literals, and everything else is
    /// returned in maximally simplified symbolic form.
    pub fn evaluate(&self, context: &Context) -> (r: Result<Expression, Error>)
        requires
            wf_v(self@),
            context.inv(),
        ensures
            match r {
                Ok(v) => eval_s(self@, context@, EVAL_DEPTH_LIMIT as nat) == Ok::<
                    ExprV,
                    ErrV,
                >(v@) && wf_v(v@),
                Err(er) => eval_s(self@, context@, EVAL_DEPTH_LIMIT as nat) == Err::<
                    ExprV,
                    ErrV,
                >(er@),
            },
    {
        eval_depth(self, context, EVAL_DEPTH_LIMIT)
    }
}

} // verus!
