//! The built-in function framework: a registry of metadata records and
//! a type-checked dispatch that invokes the built-in implementations.
//! A call is left unevaluated until every argument is concrete enough
//! for its declared parameter kind; a concrete argument of the wrong
//! shape is an invalid argument.

mod linear_algebra;
mod logic;

use vstd::prelude::*;
use crate::expression::{
    BuiltinFunction, ClassV, ExprV, Expression, MatV, Matrix, class_v, expr_v_rows, expr_v_seq,
    wf_v, wf_v_seq, wf_v_grid,
};
use crate::evaluate::ErrV;

verus! {

/// Function parameter.
#[derive(PartialEq, Eq, Structural, Clone, Copy, Debug)]
pub enum Parameter {
    /// Any symbolic expression.
    Expression,
    /// Integer expression, or an expression that can be interpreted as an integer.
    Integer,
    /// Rational number expression, or an expression that can be interpreted as a rational number.
    Rational,
    /// Complex number expression, or an expression that can be interpreted as a complex number.
    Complex,
    /// Vector expression, or an expression that can be interpreted as a vector.
    Vector,
    /// Matrix expression, or an expression that can be interpreted as a matrix.
    Matrix,
    /// Matrix expression containing a square matrix.
    SquareMatrix,
    /// Boolean expression, or an expression that can be interpreted as a boolean value.
    Boolean,
}

/// Metadata associated with a function.
pub struct Metadata {
    /// Name used to represent the function (also, default identifier for invoking the function).
    pub name: String,
    /// Human-readable description of the function.
    pub description: String,
    /// Parameters expected by the function, in the expected order.
    pub parameters: Vec<Parameter>,
    /// Usage examples for the function, as pairs of REPL input and output.
    pub examples: Vec<(String, String)>,
    /// Categories associated with the function.
    pub categories: Vec<String>,
}

/// Function definition.
pub struct Function {
    /// Metadata associated with the function.
    pub metadata: Metadata,
    /// Implementation of the function.
    pub implementation: BuiltinFunction,
}

/// What a built-in produces: a finished value, or a tree that the
/// evaluator must evaluate further.
pub enum BuiltinOutcome {
    Done(ExprV),
    Evaluate(ExprV),
}

pub open spec fn builtin_arity(b: BuiltinFunction) -> nat {
    match b {
        BuiltinFunction::LogicalAnd => 2,
        _ => 1,
    }
}

/// A class too indeterminate for any non-`Expression` parameter kind.
pub open spec fn class_unready(c: ClassV) -> bool {
    c is Unknown || c is Arithmetic || (c is Boolean && c->Boolean_0 is None)
}

pub open spec fn args_ready(args: Seq<ExprV>) -> bool {
    forall|k: int| 0 <= k < args.len() ==> !class_unready(class_v(#[trigger] args[k]))
}

/// A matrix-shaped argument: a matrix as it stands, or a column vector
/// as a single-column matrix.
pub open spec fn as_mat_shape(e: ExprV) -> Option<(nat, nat, Seq<Seq<ExprV>>)> {
    match e {
        ExprV::Matrix(m) => Some((m.rows, m.cols, m.grid)),
        ExprV::Vector(es) => Some((es.len(), 1, Seq::new(es.len(), |i: int| seq![es[i]]))),
        _ => None,
    }
}

// ------------------------------------------------------------------
// The representative algorithms, as trees over the argument's entries.
// ------------------------------------------------------------------

/// The order in which permutohedron's `heap_recursive` yields the
/// permutations of `0 .. n`: a pure function of `n` alone.
pub uninterp spec fn heap_permutations(n: nat) -> Seq<Seq<nat>>;

pub open spec fn factorial(n: nat) -> nat
    decreases n,
{
    if n == 0 {
        1
    } else {
        n * factorial((n - 1) as nat)
    }
}

/// Whether the value `v` occurs in the sequence.
pub open spec fn seq_holds_val(q: Seq<nat>, v: int) -> bool {
    exists|i: int| 0 <= i < q.len() && q[i] == v
}

/// A rearrangement of `0 .. n`: `n` entries, each value below `n`
/// appearing somewhere (hence, by counting, exactly once).
pub open spec fn is_perm_of(q: Seq<nat>, n: nat) -> bool {
    q.len() == n && (forall|v: int| 0 <= v < n ==> #[trigger] seq_holds_val(q, v))
}

/// Two sequences that agree everywhere except that the entries at two
/// positions are exchanged.
pub open spec fn differs_by_one_swap(a: Seq<nat>, b: Seq<nat>) -> bool {
    a.len() == b.len() && (exists|i: int, j: int|
        0 <= i < j < a.len() && b == #[trigger] a.update(i, a[j]).update(j, a[i]))
}

/// The product of the first `k` chosen entries of a permutation term.
pub open spec fn perm_product(grid: Seq<Seq<ExprV>>, perm: Seq<nat>, k: nat) -> ExprV
    decreases k,
{
    if k <= 1 {
        grid[0][perm[0] as int]
    } else {
        ExprV::Product(
            Box::new(perm_product(grid, perm, (k - 1) as nat)),
            Box::new(grid[k - 1][perm[k - 1] as int]),
        )
    }
}

pub open spec fn det_terms(grid: Seq<Seq<ExprV>>, perms: Seq<Seq<nat>>) -> Seq<ExprV> {
    Seq::new(perms.len(), |p: int| perm_product(grid, perms[p], grid.len()))
}

/// The alternating fold of the permutation products: the first
/// permutation is the identity with positive sign, and the sign flips
/// with every following permutation.
pub open spec fn det_fold_from(products: Seq<ExprV>, k: int, acc: ExprV) -> ExprV
    decreases products.len() - k,
    when 1 <= k
{
    if k >= products.len() {
        acc
    } else {
        let acc2 = if k % 2 == 1 {
            ExprV::Difference(Box::new(acc), Box::new(products[k]))
        } else {
            ExprV::Sum(Box::new(acc), Box::new(products[k]))
        };
        det_fold_from(products, k + 1, acc2)
    }
}

/// The determinant of a square grid by Leibniz expansion in the order
/// permutohedron generates: the empty matrix's determinant is one.
pub open spec fn det_tree(grid: Seq<Seq<ExprV>>) -> ExprV {
    if grid.len() == 0 {
        ExprV::Integer(1)
    } else {
        let products = det_terms(grid, heap_permutations(grid.len()));
        det_fold_from(products, 1, products[0])
    }
}

/// The sum of the first `k` diagonal entries, beginning at zero.
pub open spec fn trace_from(grid: Seq<Seq<ExprV>>, k: nat) -> ExprV
    decreases k,
{
    if k == 0 {
        ExprV::Integer(0)
    } else {
        ExprV::Sum(
            Box::new(trace_from(grid, (k - 1) as nat)),
            Box::new(grid[k - 1][k - 1]),
        )
    }
}

pub open spec fn transpose_grid(rows: nat, cols: nat, grid: Seq<Seq<ExprV>>) -> MatV {
    MatV {
        rows: cols,
        cols: rows,
        grid: Seq::new(cols, |i: int| Seq::new(rows, |j: int| grid[j][i])),
    }
}

// ------------------------------------------------------------------
// Dispatch.
// ------------------------------------------------------------------

/// What a built-in call produces from fully evaluated arguments:
/// wrong arity or a concretely wrong shape is an error, an argument
/// whose class is not concrete enough leaves the call unevaluated, and
/// otherwise the built-in's algorithm runs.
pub open spec fn apply_builtin(b: BuiltinFunction, call: ExprV, args: Seq<ExprV>) -> Result<
    BuiltinOutcome,
    ErrV,
> {
    if args.len() != builtin_arity(b) {
        Err(ErrV::InvalidNumberOfArguments {
            expression: call,
            min_number: builtin_arity(b),
            max_number: builtin_arity(b),
            given_number: args.len(),
        })
    } else if !args_ready(args) {
        Ok(BuiltinOutcome::Done(call))
    } else {
        match b {
            BuiltinFunction::Determinant => match as_mat_shape(args[0]) {
                Some((r, c, g)) => if r == c || r * c == 0 {
                    if r * c == 0 {
                        Ok(BuiltinOutcome::Evaluate(ExprV::Integer(1)))
                    } else {
                        Ok(BuiltinOutcome::Evaluate(det_tree(g)))
                    }
                } else {
                    Err(ErrV::InvalidArgument { expression: call, argument: args[0] })
                },
                None => Err(ErrV::InvalidArgument { expression: call, argument: args[0] }),
            },
            BuiltinFunction::Trace => match as_mat_shape(args[0]) {
                Some((r, c, g)) => if r == c || r * c == 0 {
                    Ok(BuiltinOutcome::Evaluate(trace_from(g, if r <= c { r } else { c })))
                } else {
                    Err(ErrV::InvalidArgument { expression: call, argument: args[0] })
                },
                None => Err(ErrV::InvalidArgument { expression: call, argument: args[0] }),
            },
            BuiltinFunction::Transpose => match as_mat_shape(args[0]) {
                Some((r, c, g)) => Ok(
                    BuiltinOutcome::Done(ExprV::Matrix(transpose_grid(r, c, g))),
                ),
                None => Err(ErrV::InvalidArgument { expression: call, argument: args[0] }),
            },
            BuiltinFunction::Nullspace => match as_mat_shape(args[0]) {
                Some(_) => Err(ErrV::NotImplemented { expression: call }),
                None => Err(ErrV::InvalidArgument { expression: call, argument: args[0] }),
            },
            BuiltinFunction::Eigenvalues => match as_mat_shape(args[0]) {
                Some((r, c, g)) => if r == c || r * c == 0 {
                    Err(ErrV::NotImplemented { expression: call })
                } else {
                    Err(ErrV::InvalidArgument { expression: call, argument: args[0] })
                },
                None => Err(ErrV::InvalidArgument { expression: call, argument: args[0] }),
            },
            BuiltinFunction::Eigenvectors => match as_mat_shape(args[0]) {
                Some((r, c, g)) => if r == c || r * c == 0 {
                    Err(ErrV::NotImplemented { expression: call })
                } else {
                    Err(ErrV::InvalidArgument { expression: call, argument: args[0] })
                },
                None => Err(ErrV::InvalidArgument { expression: call, argument: args[0] }),
            },
            BuiltinFunction::LogicalAnd => match (args[0], args[1]) {
                (ExprV::Boolean(x), ExprV::Boolean(y)) => Ok(
                    BuiltinOutcome::Done(ExprV::Boolean(x && y)),
                ),
                (ExprV::Boolean(_), _) => Err(
                    ErrV::InvalidArgument { expression: call, argument: args[1] },
                ),
                _ => Err(ErrV::InvalidArgument { expression: call, argument: args[0] }),
            },
        }
    }
}


// ------------------------------------------------------------------
// The executable dispatch.
// ------------------------------------------------------------------

proof fn lemma_prod_zero(r: nat, c: nat)
    ensures
        (r * c == 0) <==> (r == 0 || c == 0),
{
    assert((r * c == 0) <==> (r == 0 || c == 0)) by (nonlinear_arith);
}

fn arg_unready(e: &Expression) -> (r: bool)
    ensures
        r == class_unready(class_v(e@)),
{
    match e {
        Expression::Variable(_) => true,
        Expression::Function(_, _) => true,
        Expression::FunctionValue(_, _) => true,
        Expression::Negation(_) => true,
        Expression::Not(_) => true,
        Expression::Sum(_, _) => true,
        Expression::Difference(_, _) => true,
        Expression::Product(_, _) => true,
        Expression::Quotient(_, _) => true,
        Expression::Remainder(_, _) => true,
        Expression::Power(_, _) => true,
        Expression::Equal(_, _) => true,
        Expression::NotEqual(_, _) => true,
        Expression::LessThan(_, _) => true,
        Expression::LessThanOrEqual(_, _) => true,
        Expression::GreaterThan(_, _) => true,
        Expression::GreaterThanOrEqual(_, _) => true,
        Expression::And(_, _) => true,
        Expression::Or(_, _) => true,
        Expression::Integer(_) => false,
        Expression::Rational(_, _) => false,
        Expression::Complex(_, _) => false,
        Expression::Vector(_) => false,
        Expression::Matrix(_) => false,
        Expression::Boolean(_) => false,
    }
}

/// Reads an argument as a matrix: a matrix as it stands, or a column
/// vector as a single-column matrix.
fn expr_to_matrix(e: &Expression) -> (r: Option<Matrix>)
    requires
        wf_v(e@),
    ensures
        match r {
            Some(m) => {
                &&& as_mat_shape(e@) == Some(
                    (m.nrows as nat, m.ncols as nat, expr_v_rows(m.entries@)),
                )
                &&& m.entries@.len() == m.nrows
                &&& forall|j: int| 0 <= j < m.entries@.len() ==> (
                #[trigger] m.entries@[j])@.len() == m.ncols
                &&& wf_v_grid(expr_v_rows(m.entries@))
            },
            None => as_mat_shape(e@) is None,
        },
{
    match e {
        Expression::Matrix(m) => {
            proof {
                assert(decreases_to!(*e => e->Matrix_0));
                assert(e->Matrix_0 == *m);
                crate::expression::lemma_expr_v_rows_len(m.entries@);
                assert forall|j: int| 0 <= j < m.entries@.len() implies (
                #[trigger] m.entries@[j])@.len() == m.ncols by {
                    crate::expression::lemma_expr_v_rows_index(m.entries@, j);
                    crate::expression::lemma_expr_v_seq_len(m.entries@[j]@);
                }
            }
            let d = m.duplicate();
            proof {
                assert(e@ == ExprV::Matrix(
                    (MatV {
                        rows: m.nrows as nat,
                        cols: m.ncols as nat,
                        grid: expr_v_rows(m.entries@),
                    }),
                ));
                assert(crate::expression::mat_v_wf(e@->Matrix_0));
                crate::expression::lemma_expr_v_rows_len(d.entries@);
                assert forall|j: int| 0 <= j < d.entries@.len() implies (
                #[trigger] d.entries@[j])@.len() == d.ncols by {
                    crate::expression::lemma_expr_v_rows_index(d.entries@, j);
                    crate::expression::lemma_expr_v_rows_index(m.entries@, j);
                    crate::expression::lemma_expr_v_seq_len(d.entries@[j]@);
                    crate::expression::lemma_expr_v_seq_len(m.entries@[j]@);
                }
            }
            Some(d)
        },
        Expression::Vector(es) => {
            let ghost esv = expr_v_seq(es@);
            proof {
                crate::expression::lemma_expr_v_seq_len(es@);
            }
            let mut rows: Vec<Vec<Expression>> = Vec::new();
            let mut i: usize = 0;
            while i < es.len()
                invariant
                    0 <= i <= es@.len(),
                    *e == Expression::Vector(*es),
                    wf_v(e@),
                    esv == expr_v_seq(es@),
                    esv.len() == es@.len(),
                    rows@.len() == i,
                    forall|j: int| 0 <= j < i ==> expr_v_seq((#[trigger] rows@[j])@)
                        == seq![esv[j]],
                decreases es@.len() - i,
            {
                proof {
                    assert(decreases_to!(*e => e->Vector_0));
                    assert(e->Vector_0 == *es);
                    assert(decreases_to!(*es => es@));
                    assert(decreases_to!(es@ => es@[i as int]));
                    crate::expression::lemma_expr_v_seq_index(es@, i as int);
                }
                let d = es[i].duplicate();
                let mut row: Vec<Expression> = Vec::new();
                row.push(d);
                proof {
                    assert(expr_v_seq(Seq::<Expression>::empty()) =~= Seq::<ExprV>::empty());
                    assert(row@.drop_first() =~= Seq::<Expression>::empty());
                    assert(expr_v_seq(row@) =~= seq![esv[i as int]]);
                }
                rows.push(row);
                i = i + 1;
            }
            let m = Matrix { nrows: es.len(), ncols: 1, entries: rows };
            proof {
                let want = Seq::new(esv.len(), |k: int| seq![esv[k]]);
                crate::expression::lemma_expr_v_rows_len(rows@);
                assert forall|j: int| 0 <= j < rows@.len() implies (
                #[trigger] rows@[j])@.len() == 1 by {
                    crate::expression::lemma_expr_v_seq_len(rows@[j]@);
                }
                assert forall|k: int| 0 <= k < rows@.len() implies #[trigger] expr_v_rows(
                    rows@,
                )[k] == want[k] by {
                    crate::expression::lemma_expr_v_rows_index(rows@, k);
                }
                assert(expr_v_rows(rows@) =~= want);
                crate::expression::lemma_wf_v_grid_iff(expr_v_rows(rows@));
                assert forall|k: int| 0 <= k < rows@.len() implies wf_v_seq(
                    #[trigger] expr_v_rows(rows@)[k],
                ) by {
                    crate::expression::lemma_wf_v_seq_index(esv, k);
                    crate::expression::lemma_wf_v_seq_iff(want[k]);
                }
            }
            Some(m)
        },
        _ => None,
    }
}

/// Invokes a built-in on fully evaluated arguments.  The returned flag
/// says whether the evaluator must evaluate the produced tree further.
pub(crate) fn apply_builtin_e(
    b: BuiltinFunction,
    call: Expression,
    args: &Vec<Expression>,
) -> (r: Result<(Expression, bool), crate::evaluate::Error>)
    requires
        wf_v(call@),
        wf_v_seq(expr_v_seq(args@)),
    ensures
        match r {
            Ok((x, again)) => apply_builtin(b, call@, expr_v_seq(args@)) == Ok::<
                BuiltinOutcome,
                ErrV,
            >(
                if again {
                    BuiltinOutcome::Evaluate(x@)
                } else {
                    BuiltinOutcome::Done(x@)
                },
            ) && wf_v(x@),
            Err(er) => apply_builtin(b, call@, expr_v_seq(args@)) == Err::<BuiltinOutcome, ErrV>(er@),
        },
{
    let ghost argsv = expr_v_seq(args@);
    proof {
        crate::expression::lemma_expr_v_seq_len(args@);
    }
    let arity: usize = if matches!(b, BuiltinFunction::LogicalAnd) {
        2
    } else {
        1
    };
    proof {
        assert(arity as nat == builtin_arity(b));
    }
    if args.len() != arity {
        return Err(crate::evaluate::Error::InvalidNumberOfArguments {
            expression: call,
            min_number: arity,
            max_number: arity,
            given_number: args.len(),
        });
    }
    let mut k: usize = 0;
    while k < args.len()
        invariant
            0 <= k <= args@.len(),
            argsv == expr_v_seq(args@),
            argsv.len() == args@.len(),
            argsv.len() == builtin_arity(b),
            wf_v(call@),
            forall|j: int| 0 <= j < k ==> !class_unready(class_v(#[trigger] argsv[j])),
        decreases args@.len() - k,
    {
        proof {
            crate::expression::lemma_expr_v_seq_index(args@, k as int);
        }
        if arg_unready(&args[k]) {
            proof {
                assert(class_unready(class_v(argsv[k as int])));
                assert(!args_ready(argsv));
            }
            return Ok((call, false));
        }
        k = k + 1;
    }
    proof {
        assert(args_ready(argsv));
        crate::expression::lemma_expr_v_seq_index(args@, 0);
        crate::expression::lemma_wf_v_seq_index(argsv, 0);
        if argsv.len() > 1 {
            crate::expression::lemma_expr_v_seq_index(args@, 1);
            crate::expression::lemma_wf_v_seq_index(argsv, 1);
        }
    }
    match b {
        BuiltinFunction::Determinant => match expr_to_matrix(&args[0]) {
            None => Err(crate::evaluate::Error::InvalidArgument {
                expression: call,
                argument: args[0].duplicate(),
            }),
            Some(m) => {
                proof {
                    lemma_prod_zero(m.nrows as nat, m.ncols as nat);
                }
                if m.nrows == 0 || m.ncols == 0 {
                    proof {
                        crate::expression::lemma_expr_v_rows_len(m.entries@);
                    }
                    Ok((Expression::Integer(crate::number::big_from_u64(1)), true))
                } else if m.nrows == m.ncols {
                    Ok((linear_algebra::determinant(&m), true))
                } else {
                    Err(crate::evaluate::Error::InvalidArgument {
                        expression: call,
                        argument: args[0].duplicate(),
                    })
                }
            },
        },
        BuiltinFunction::Trace => match expr_to_matrix(&args[0]) {
            None => Err(crate::evaluate::Error::InvalidArgument {
                expression: call,
                argument: args[0].duplicate(),
            }),
            Some(m) => {
                proof {
                    lemma_prod_zero(m.nrows as nat, m.ncols as nat);
                }
                if m.nrows == m.ncols {
                    Ok((linear_algebra::trace(&m), true))
                } else if m.nrows == 0 || m.ncols == 0 {
                    // A degenerate empty shape: the diagonal is empty.
                    let ghost g = expr_v_rows(m.entries@);
                    proof {
                        assert(trace_from(g, 0) == ExprV::Integer(0));
                    }
                    Ok((Expression::Integer(crate::number::big_from_u64(0)), true))
                } else {
                    Err(crate::evaluate::Error::InvalidArgument {
                        expression: call,
                        argument: args[0].duplicate(),
                    })
                }
            },
        },
        BuiltinFunction::Transpose => match expr_to_matrix(&args[0]) {
            None => Err(crate::evaluate::Error::InvalidArgument {
                expression: call,
                argument: args[0].duplicate(),
            }),
            Some(m) => Ok((linear_algebra::transpose(&m), false)),
        },
        BuiltinFunction::Nullspace => match expr_to_matrix(&args[0]) {
            None => Err(crate::evaluate::Error::InvalidArgument {
                expression: call,
                argument: args[0].duplicate(),
            }),
            Some(_) => Err(crate::evaluate::Error::NotImplemented { expression: call }),
        },
        BuiltinFunction::Eigenvalues => match expr_to_matrix(&args[0]) {
            None => Err(crate::evaluate::Error::InvalidArgument {
                expression: call,
                argument: args[0].duplicate(),
            }),
            Some(m) => {
                proof {
                    lemma_prod_zero(m.nrows as nat, m.ncols as nat);
                }
                if m.nrows == m.ncols || m.nrows == 0 || m.ncols == 0 {
                    Err(crate::evaluate::Error::NotImplemented { expression: call })
                } else {
                    Err(crate::evaluate::Error::InvalidArgument {
                        expression: call,
                        argument: args[0].duplicate(),
                    })
                }
            },
        },
        BuiltinFunction::Eigenvectors => match expr_to_matrix(&args[0]) {
            None => Err(crate::evaluate::Error::InvalidArgument {
                expression: call,
                argument: args[0].duplicate(),
            }),
            Some(m) => {
                proof {
                    lemma_prod_zero(m.nrows as nat, m.ncols as nat);
                }
                if m.nrows == m.ncols || m.nrows == 0 || m.ncols == 0 {
                    Err(crate::evaluate::Error::NotImplemented { expression: call })
                } else {
                    Err(crate::evaluate::Error::InvalidArgument {
                        expression: call,
                        argument: args[0].duplicate(),
                    })
                }
            },
        },
        BuiltinFunction::LogicalAnd => {
            let first_bool = matches!(&args[0], Expression::Boolean(_));
            if !first_bool {
                return Err(crate::evaluate::Error::InvalidArgument {
                    expression: call,
                    argument: args[0].duplicate(),
                });
            }
            let second_bool = matches!(&args[1], Expression::Boolean(_));
            if !second_bool {
                return Err(crate::evaluate::Error::InvalidArgument {
                    expression: call,
                    argument: args[1].duplicate(),
                });
            }
            let x = match &args[0] {
                Expression::Boolean(v) => *v,
                _ => false,
            };
            let y = match &args[1] {
                Expression::Boolean(v) => *v,
                _ => false,
            };
            Ok((Expression::Boolean(logic::and(x, y)), false))
        },
    }
}


// ------------------------------------------------------------------
// The registry.
// ------------------------------------------------------------------

// ------------------------------------------------------------------
// The registry.
// ------------------------------------------------------------------

/// The parameter kinds each built-in expects, in order; the dispatch's
/// readiness and shape checks realize exactly these kinds (square or
/// empty for `SquareMatrix`, matrix-shaped for `Matrix`, concrete
/// booleans for `Boolean`).
pub open spec fn builtin_parameters(b: BuiltinFunction) -> Seq<Parameter> {
    match b {
        BuiltinFunction::LogicalAnd => seq![Parameter::Boolean, Parameter::Boolean],
        BuiltinFunction::Determinant => seq![Parameter::SquareMatrix],
        BuiltinFunction::Transpose => seq![Parameter::Matrix],
        BuiltinFunction::Trace => seq![Parameter::SquareMatrix],
        BuiltinFunction::Nullspace => seq![Parameter::Matrix],
        BuiltinFunction::Eigenvalues => seq![Parameter::SquareMatrix],
        BuiltinFunction::Eigenvectors => seq![Parameter::SquareMatrix],
    }
}

/// The arity a built-in's dispatch enforces is the length of its
/// declared parameter list.
pub proof fn lemma_builtin_parameters_arity(b: BuiltinFunction)
    ensures
        builtin_parameters(b).len() == builtin_arity(b),
{
}

pub open spec fn examples_view(v: Seq<(String, String)>) -> Seq<(Seq<char>, Seq<char>)> {
    v.map_values(|p: (String, String)| (p.0@, p.1@))
}

pub open spec fn strings_view(v: Seq<String>) -> Seq<Seq<char>> {
    v.map_values(|p: String| p@)
}

/// A registry entry's full content: name, description, parameter kinds,
/// example pairs, categories and implementation.
pub open spec fn entry_spec(
    f: Function,
    name: Seq<char>,
    description: Seq<char>,
    parameters: Seq<Parameter>,
    examples: Seq<(Seq<char>, Seq<char>)>,
    categories: Seq<Seq<char>>,
    implementation: BuiltinFunction,
) -> bool {
    &&& f.metadata.name@ == name
    &&& f.metadata.description@ == description
    &&& f.metadata.parameters@ == parameters
    &&& examples_view(f.metadata.examples@) == examples
    &&& strings_view(f.metadata.categories@) == categories
    &&& f.implementation == implementation
}

fn example(input: &str, output: &str) -> (r: (String, String))
    ensures
        r.0@ == input@,
        r.1@ == output@,
{
    (input.to_owned(), output.to_owned())
}

fn and_entry() -> (r: Function)
    ensures
        entry_spec(
            r,
            "and"@,
            "logical conjunction of two boolean values"@,
            seq![Parameter::Boolean, Parameter::Boolean],
            seq![("and(true, false)"@, "false"@)],
            seq!["logic"@],
            BuiltinFunction::LogicalAnd,
        ),
{
    let mut parameters: Vec<Parameter> = Vec::new();
    parameters.push(Parameter::Boolean);
    parameters.push(Parameter::Boolean);
    let mut examples: Vec<(String, String)> = Vec::new();
    examples.push(example("and(true, false)", "false"));
    let mut categories: Vec<String> = Vec::new();
    categories.push("logic".to_owned());
    let r = Function {
        metadata: Metadata {
            name: "and".to_owned(),
            description: "logical conjunction of two boolean values".to_owned(),
            parameters,
            examples,
            categories,
        },
        implementation: BuiltinFunction::LogicalAnd,
    };
    proof {
        assert(r.metadata.parameters@ =~= seq![Parameter::Boolean, Parameter::Boolean]);
        assert(examples_view(r.metadata.examples@) =~= seq![("and(true, false)"@, "false"@)]);
        assert(strings_view(r.metadata.categories@) =~= seq!["logic"@]);
    }
    r
}

fn det_entry() -> (r: Function)
    ensures
        entry_spec(
            r,
            "det"@,
            "determinant of a square matrix"@,
            seq![Parameter::SquareMatrix],
            seq![
                ("det([[1, 2], [3, 4]])"@, "-2"@),
                ("det([[a, b], [c, d]])"@, "a * d - b * c"@),
                ("det([])"@, "1"@),
            ],
            seq!["linear algebra"@],
            BuiltinFunction::Determinant,
        ),
{
    let mut parameters: Vec<Parameter> = Vec::new();
    parameters.push(Parameter::SquareMatrix);
    let mut examples: Vec<(String, String)> = Vec::new();
    examples.push(example("det([[1, 2], [3, 4]])", "-2"));
    examples.push(example("det([[a, b], [c, d]])", "a * d - b * c"));
    examples.push(example("det([])", "1"));
    let mut categories: Vec<String> = Vec::new();
    categories.push("linear algebra".to_owned());
    let r = Function {
        metadata: Metadata {
            name: "det".to_owned(),
            description: "determinant of a square matrix".to_owned(),
            parameters,
            examples,
            categories,
        },
        implementation: BuiltinFunction::Determinant,
    };
    proof {
        assert(r.metadata.parameters@ =~= seq![Parameter::SquareMatrix]);
        assert(examples_view(r.metadata.examples@) =~= seq![
            ("det([[1, 2], [3, 4]])"@, "-2"@),
            ("det([[a, b], [c, d]])"@, "a * d - b * c"@),
            ("det([])"@, "1"@),
        ]);
        assert(strings_view(r.metadata.categories@) =~= seq!["linear algebra"@]);
    }
    r
}

fn transpose_entry() -> (r: Function)
    ensures
        entry_spec(
            r,
            "transpose"@,
            "transpose of a matrix"@,
            seq![Parameter::Matrix],
            seq![("transpose([[1, 2], [3, 4]])"@, "[[1, 3], [2, 4]]"@)],
            seq!["linear algebra"@],
            BuiltinFunction::Transpose,
        ),
{
    let mut parameters: Vec<Parameter> = Vec::new();
    parameters.push(Parameter::Matrix);
    let mut examples: Vec<(String, String)> = Vec::new();
    examples.push(example("transpose([[1, 2], [3, 4]])", "[[1, 3], [2, 4]]"));
    let mut categories: Vec<String> = Vec::new();
    categories.push("linear algebra".to_owned());
    let r = Function {
        metadata: Metadata {
            name: "transpose".to_owned(),
            description: "transpose of a matrix".to_owned(),
            parameters,
            examples,
            categories,
        },
        implementation: BuiltinFunction::Transpose,
    };
    proof {
        assert(r.metadata.parameters@ =~= seq![Parameter::Matrix]);
        assert(examples_view(r.metadata.examples@) =~= seq![
            ("transpose([[1, 2], [3, 4]])"@, "[[1, 3], [2, 4]]"@),
        ]);
        assert(strings_view(r.metadata.categories@) =~= seq!["linear algebra"@]);
    }
    r
}

fn trace_entry() -> (r: Function)
    ensures
        entry_spec(
            r,
            "trace"@,
            "trace of a square matrix"@,
            seq![Parameter::SquareMatrix],
            seq![("trace([[1, 2], [3, a]])"@, "1 + a"@)],
            seq!["linear algebra"@],
            BuiltinFunction::Trace,
        ),
{
    let mut parameters: Vec<Parameter> = Vec::new();
    parameters.push(Parameter::SquareMatrix);
    let mut examples: Vec<(String, String)> = Vec::new();
    examples.push(example("trace([[1, 2], [3, a]])", "1 + a"));
    let mut categories: Vec<String> = Vec::new();
    categories.push("linear algebra".to_owned());
    let r = Function {
        metadata: Metadata {
            name: "trace".to_owned(),
            description: "trace of a square matrix".to_owned(),
            parameters,
            examples,
            categories,
        },
        implementation: BuiltinFunction::Trace,
    };
    proof {
        assert(r.metadata.parameters@ =~= seq![Parameter::SquareMatrix]);
        assert(examples_view(r.metadata.examples@) =~= seq![
            ("trace([[1, 2], [3, a]])"@, "1 + a"@),
        ]);
        assert(strings_view(r.metadata.categories@) =~= seq!["linear algebra"@]);
    }
    r
}

fn nullspace_entry() -> (r: Function)
    ensures
        entry_spec(
            r,
            "nullspace"@,
            "nullspace of a matrix"@,
            seq![Parameter::Matrix],
            Seq::empty(),
            seq!["linear algebra"@],
            BuiltinFunction::Nullspace,
        ),
{
    let mut parameters: Vec<Parameter> = Vec::new();
    parameters.push(Parameter::Matrix);
    let examples: Vec<(String, String)> = Vec::new();
    let mut categories: Vec<String> = Vec::new();
    categories.push("linear algebra".to_owned());
    let r = Function {
        metadata: Metadata {
            name: "nullspace".to_owned(),
            description: "nullspace of a matrix".to_owned(),
            parameters,
            examples,
            categories,
        },
        implementation: BuiltinFunction::Nullspace,
    };
    proof {
        assert(r.metadata.parameters@ =~= seq![Parameter::Matrix]);
        assert(examples_view(r.metadata.examples@) =~= Seq::<(Seq<char>, Seq<char>)>::empty());
        assert(strings_view(r.metadata.categories@) =~= seq!["linear algebra"@]);
    }
    r
}

fn eigenvals_entry() -> (r: Function)
    ensures
        entry_spec(
            r,
            "eigenvals"@,
            "eigenvalues of a square matrix"@,
            seq![Parameter::SquareMatrix],
            Seq::empty(),
            seq!["linear algebra"@],
            BuiltinFunction::Eigenvalues,
        ),
{
    let mut parameters: Vec<Parameter> = Vec::new();
    parameters.push(Parameter::SquareMatrix);
    let examples: Vec<(String, String)> = Vec::new();
    let mut categories: Vec<String> = Vec::new();
    categories.push("linear algebra".to_owned());
    let r = Function {
        metadata: Metadata {
            name: "eigenvals".to_owned(),
            description: "eigenvalues of a square matrix".to_owned(),
            parameters,
            examples,
            categories,
        },
        implementation: BuiltinFunction::Eigenvalues,
    };
    proof {
        assert(r.metadata.parameters@ =~= seq![Parameter::SquareMatrix]);
        assert(examples_view(r.metadata.examples@) =~= Seq::<(Seq<char>, Seq<char>)>::empty());
        assert(strings_view(r.metadata.categories@) =~= seq!["linear algebra"@]);
    }
    r
}

fn eigenvecs_entry() -> (r: Function)
    ensures
        entry_spec(
            r,
            "eigenvecs"@,
            "eigenvectors of a square matrix"@,
            seq![Parameter::SquareMatrix],
            Seq::empty(),
            seq!["linear algebra"@],
            BuiltinFunction::Eigenvectors,
        ),
{
    let mut parameters: Vec<Parameter> = Vec::new();
    parameters.push(Parameter::SquareMatrix);
    let examples: Vec<(String, String)> = Vec::new();
    let mut categories: Vec<String> = Vec::new();
    categories.push("linear algebra".to_owned());
    let r = Function {
        metadata: Metadata {
            name: "eigenvecs".to_owned(),
            description: "eigenvectors of a square matrix".to_owned(),
            parameters,
            examples,
            categories,
        },
        implementation: BuiltinFunction::Eigenvectors,
    };
    proof {
        assert(r.metadata.parameters@ =~= seq![Parameter::SquareMatrix]);
        assert(examples_view(r.metadata.examples@) =~= Seq::<(Seq<char>, Seq<char>)>::empty());
        assert(strings_view(r.metadata.categories@) =~= seq!["linear algebra"@]);
    }
    r
}

/// Returns all available functions, with every entry's full content
/// fixed: name, description, parameter kinds, example pairs, categories
/// and implementation.  Each entry's parameter kinds are exactly those
/// the dispatch enforces for its built-in.  That each example's input
/// evaluates and prints to its output is exercised by the test suite
/// over this registry; deriving it from the contracts alone would need
/// the full evaluation of each concrete input, which is not stated here.
pub fn functions() -> (r: Vec<Function>)
    ensures
        r@.len() == 7,
        entry_spec(
            r@[0],
            "and"@,
            "logical conjunction of two boolean values"@,
            seq![Parameter::Boolean, Parameter::Boolean],
            seq![("and(true, false)"@, "false"@)],
            seq!["logic"@],
            BuiltinFunction::LogicalAnd,
        ),
        entry_spec(
            r@[1],
            "det"@,
            "determinant of a square matrix"@,
            seq![Parameter::SquareMatrix],
            seq![
                ("det([[1, 2], [3, 4]])"@, "-2"@),
                ("det([[a, b], [c, d]])"@, "a * d - b * c"@),
                ("det([])"@, "1"@),
            ],
            seq!["linear algebra"@],
            BuiltinFunction::Determinant,
        ),
        entry_spec(
            r@[2],
            "transpose"@,
            "transpose of a matrix"@,
            seq![Parameter::Matrix],
            seq![("transpose([[1, 2], [3, 4]])"@, "[[1, 3], [2, 4]]"@)],
            seq!["linear algebra"@],
            BuiltinFunction::Transpose,
        ),
        entry_spec(
            r@[3],
            "trace"@,
            "trace of a square matrix"@,
            seq![Parameter::SquareMatrix],
            seq![("trace([[1, 2], [3, a]])"@, "1 + a"@)],
            seq!["linear algebra"@],
            BuiltinFunction::Trace,
        ),
        entry_spec(
            r@[4],
            "nullspace"@,
            "nullspace of a matrix"@,
            seq![Parameter::Matrix],
            Seq::empty(),
            seq!["linear algebra"@],
            BuiltinFunction::Nullspace,
        ),
        entry_spec(
            r@[5],
            "eigenvals"@,
            "eigenvalues of a square matrix"@,
            seq![Parameter::SquareMatrix],
            Seq::empty(),
            seq!["linear algebra"@],
            BuiltinFunction::Eigenvalues,
        ),
        entry_spec(
            r@[6],
            "eigenvecs"@,
            "eigenvectors of a square matrix"@,
            seq![Parameter::SquareMatrix],
            Seq::empty(),
            seq!["linear algebra"@],
            BuiltinFunction::Eigenvectors,
        ),
        forall|i: int| 0 <= i < r@.len() ==> (#[trigger] r@[i]).metadata.parameters@
            == builtin_parameters(r@[i].implementation),
        forall|i: int| 0 <= i < r@.len() ==> (#[trigger] r@[i]).metadata.parameters@.len()
            == builtin_arity(r@[i].implementation),
{
    let mut out: Vec<Function> = Vec::new();
    out.push(and_entry());
    out.push(det_entry());
    out.push(transpose_entry());
    out.push(trace_entry());
    out.push(nullspace_entry());
    out.push(eigenvals_entry());
    out.push(eigenvecs_entry());
    proof {
        assert forall|i: int| 0 <= i < out@.len() implies (
        #[trigger] out@[i]).metadata.parameters@.len() == builtin_arity(
            out@[i].implementation,
        ) by {
            lemma_builtin_parameters_arity(out@[i].implementation);
        }
    }
    out
}


/// The default binding context: every registry function bound to its
/// name as a function value.
pub fn default_context() -> (r: crate::evaluate::Context)
    ensures
        r.inv(),
        r@.dom() == set![
            "i"@,
            "and"@,
            "det"@,
            "transpose"@,
            "trace"@,
            "nullspace"@,
            "eigenvals"@,
            "eigenvecs"@,
        ],
        r@.dom().contains("i"@) && r@["i"@] == ExprV::Complex(
            (crate::number::ComplexV { re: crate::number::rat_zero_v(), im: crate::number::rat_one_v() }),
            crate::expression::RationalRepresentation::Fraction,
        ),
        r@.dom().contains("and"@) && r@["and"@] == ExprV::FunctionValue(
            "and"@,
            crate::expression::FunV::Builtin(BuiltinFunction::LogicalAnd),
        ),
        r@.dom().contains("det"@) && r@["det"@] == ExprV::FunctionValue(
            "det"@,
            crate::expression::FunV::Builtin(BuiltinFunction::Determinant),
        ),
        r@.dom().contains("transpose"@) && r@["transpose"@] == ExprV::FunctionValue(
            "transpose"@,
            crate::expression::FunV::Builtin(BuiltinFunction::Transpose),
        ),
        r@.dom().contains("trace"@) && r@["trace"@] == ExprV::FunctionValue(
            "trace"@,
            crate::expression::FunV::Builtin(BuiltinFunction::Trace),
        ),
        r@.dom().contains("nullspace"@) && r@["nullspace"@] == ExprV::FunctionValue(
            "nullspace"@,
            crate::expression::FunV::Builtin(BuiltinFunction::Nullspace),
        ),
        r@.dom().contains("eigenvals"@) && r@["eigenvals"@] == ExprV::FunctionValue(
            "eigenvals"@,
            crate::expression::FunV::Builtin(BuiltinFunction::Eigenvalues),
        ),
        r@.dom().contains("eigenvecs"@) && r@["eigenvecs"@] == ExprV::FunctionValue(
            "eigenvecs"@,
            crate::expression::FunV::Builtin(BuiltinFunction::Eigenvectors),
        ),
{
    let mut ctx = crate::evaluate::Context::new();
    ctx.insert(
        "i".to_owned(),
        Expression::Complex(
            crate::expression::Complex {
                re: crate::number::rat_zero(),
                im: crate::number::rat_one(),
            },
            crate::expression::RationalRepresentation::Fraction,
        ),
    );
    ctx.insert(
        "and".to_owned(),
        Expression::FunctionValue(
            "and".to_owned(),
            crate::expression::FunctionBody::Builtin(BuiltinFunction::LogicalAnd),
        ),
    );
    ctx.insert(
        "det".to_owned(),
        Expression::FunctionValue(
            "det".to_owned(),
            crate::expression::FunctionBody::Builtin(BuiltinFunction::Determinant),
        ),
    );
    ctx.insert(
        "transpose".to_owned(),
        Expression::FunctionValue(
            "transpose".to_owned(),
            crate::expression::FunctionBody::Builtin(BuiltinFunction::Transpose),
        ),
    );
    ctx.insert(
        "trace".to_owned(),
        Expression::FunctionValue(
            "trace".to_owned(),
            crate::expression::FunctionBody::Builtin(BuiltinFunction::Trace),
        ),
    );
    ctx.insert(
        "nullspace".to_owned(),
        Expression::FunctionValue(
            "nullspace".to_owned(),
            crate::expression::FunctionBody::Builtin(BuiltinFunction::Nullspace),
        ),
    );
    ctx.insert(
        "eigenvals".to_owned(),
        Expression::FunctionValue(
            "eigenvals".to_owned(),
            crate::expression::FunctionBody::Builtin(BuiltinFunction::Eigenvalues),
        ),
    );
    ctx.insert(
        "eigenvecs".to_owned(),
        Expression::FunctionValue(
            "eigenvecs".to_owned(),
            crate::expression::FunctionBody::Builtin(BuiltinFunction::Eigenvectors),
        ),
    );
    proof {
        broadcast use vstd::string::group_string_axioms;

        reveal_strlit("i");
        reveal_strlit("and");
        reveal_strlit("det");
        reveal_strlit("transpose");
        reveal_strlit("trace");
        reveal_strlit("nullspace");
        reveal_strlit("eigenvals");
        reveal_strlit("eigenvecs");
        assert("i"@ != "and"@) by {
            assert("i"@.len() == 1);
            assert("and"@.len() == 3);
        }
        assert("i"@ != "det"@) by {
            assert("i"@.len() == 1);
            assert("det"@.len() == 3);
        }
        assert("i"@ != "transpose"@) by {
            assert("i"@.len() == 1);
            assert("transpose"@.len() == 9);
        }
        assert("i"@ != "trace"@) by {
            assert("i"@.len() == 1);
            assert("trace"@.len() == 5);
        }
        assert("i"@ != "nullspace"@) by {
            assert("i"@.len() == 1);
            assert("nullspace"@.len() == 9);
        }
        assert("i"@ != "eigenvals"@) by {
            assert("i"@.len() == 1);
            assert("eigenvals"@.len() == 9);
        }
        assert("i"@ != "eigenvecs"@) by {
            assert("i"@.len() == 1);
            assert("eigenvecs"@.len() == 9);
        }
        assert("and"@ != "det"@) by {
            assert("and"@[0] == 'a');
            assert("det"@[0] == 'd');
        }
        assert("and"@ != "transpose"@) by {
            assert("and"@.len() == 3);
            assert("transpose"@.len() == 9);
        }
        assert("and"@ != "trace"@) by {
            assert("and"@.len() == 3);
            assert("trace"@.len() == 5);
        }
        assert("and"@ != "nullspace"@) by {
            assert("and"@.len() == 3);
            assert("nullspace"@.len() == 9);
        }
        assert("and"@ != "eigenvals"@) by {
            assert("and"@.len() == 3);
            assert("eigenvals"@.len() == 9);
        }
        assert("and"@ != "eigenvecs"@) by {
            assert("and"@.len() == 3);
            assert("eigenvecs"@.len() == 9);
        }
        assert("det"@ != "transpose"@) by {
            assert("det"@.len() == 3);
            assert("transpose"@.len() == 9);
        }
        assert("det"@ != "trace"@) by {
            assert("det"@.len() == 3);
            assert("trace"@.len() == 5);
        }
        assert("det"@ != "nullspace"@) by {
            assert("det"@.len() == 3);
            assert("nullspace"@.len() == 9);
        }
        assert("det"@ != "eigenvals"@) by {
            assert("det"@.len() == 3);
            assert("eigenvals"@.len() == 9);
        }
        assert("det"@ != "eigenvecs"@) by {
            assert("det"@.len() == 3);
            assert("eigenvecs"@.len() == 9);
        }
        assert("transpose"@ != "trace"@) by {
            assert("transpose"@.len() == 9);
            assert("trace"@.len() == 5);
        }
        assert("transpose"@ != "nullspace"@) by {
            assert("transpose"@[0] == 't');
            assert("nullspace"@[0] == 'n');
        }
        assert("transpose"@ != "eigenvals"@) by {
            assert("transpose"@[0] == 't');
            assert("eigenvals"@[0] == 'e');
        }
        assert("transpose"@ != "eigenvecs"@) by {
            assert("transpose"@[0] == 't');
            assert("eigenvecs"@[0] == 'e');
        }
        assert("trace"@ != "nullspace"@) by {
            assert("trace"@.len() == 5);
            assert("nullspace"@.len() == 9);
        }
        assert("trace"@ != "eigenvals"@) by {
            assert("trace"@.len() == 5);
            assert("eigenvals"@.len() == 9);
        }
        assert("trace"@ != "eigenvecs"@) by {
            assert("trace"@.len() == 5);
            assert("eigenvecs"@.len() == 9);
        }
        assert("nullspace"@ != "eigenvals"@) by {
            assert("nullspace"@[0] == 'n');
            assert("eigenvals"@[0] == 'e');
        }
        assert("nullspace"@ != "eigenvecs"@) by {
            assert("nullspace"@[0] == 'n');
            assert("eigenvecs"@[0] == 'e');
        }
        assert("eigenvals"@ != "eigenvecs"@) by {
            assert("eigenvals"@[6] == 'a');
            assert("eigenvecs"@[6] == 'e');
        }
        assert(ctx@.dom() =~= set![
            "i"@,
            "and"@,
            "det"@,
            "transpose"@,
            "trace"@,
            "nullspace"@,
            "eigenvals"@,
            "eigenvecs"@,
        ]);
    }
    ctx
}

} // verus!
