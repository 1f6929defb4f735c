//! The printer: renders an expression as minimal human-readable text.
//! `print_v` is the mathematical definition of the rendering, and
//! `to_text` is proved to produce exactly that sequence of characters.
//! A child is parenthesized only where the grammar requires it: when its
//! precedence is lower than its parent's, or equal while the parent does
//! not associate on that side.

use vstd::prelude::*;
use crate::expression::{
    Associativity, ExprV, Expression, FunctionBody, Matrix, RationalRepresentation, complex_v_wf,
    expr_v_rows, expr_v_seq, lemma_expr_v_rows_index, lemma_expr_v_rows_len,
    lemma_expr_v_seq_index, lemma_expr_v_seq_len, lemma_wf_v_grid_index, lemma_wf_v_seq_index,
    prec_assoc_v, wf_v, wf_v_grid, wf_v_seq,
};
use crate::number::{
    big_lt, big_from_u64, big_neg, big_to_dec_string, dec_digits, decimal_representation,
    finite_dec_repr, int_abs, int_dec_chars, rat_denom_big, rat_is_negative, rat_is_zero,
    rat_neg, rat_numer_big, rat_v, rat_neg_v, RatV, Rational,
};

verus! {

/// Whether the left child of an infix operator must be parenthesized.
pub open spec fn needs_parens_left(parent: (int, Associativity), child: int) -> bool {
    child < parent.0 || (child == parent.0 && parent.1 == Associativity::RightAssociative)
}

/// Whether the right child of an infix operator must be parenthesized.
pub open spec fn needs_parens_right(parent: (int, Associativity), child: int) -> bool {
    child < parent.0 || (child == parent.0 && parent.1 == Associativity::LeftAssociative)
}

pub open spec fn zeros(n: nat) -> Seq<char> {
    Seq::new(n, |i: int| '0')
}

/// The text of a rational in fraction form: `n/d`, or `n` alone when the
/// denominator is one.
pub open spec fn frac_chars(x: RatV) -> Seq<char> {
    if x.d == 1 {
        int_dec_chars(x.n)
    } else {
        int_dec_chars(x.n) + "/"@ + int_dec_chars(x.d)
    }
}

/// The text of a rational in finite decimal form with mantissa `m` and
/// `k` digits after the separator.
pub open spec fn dec_chars(x: RatV, m: int, k: nat) -> Seq<char> {
    let sign: Seq<char> = if x.n < 0 {
        "-"@
    } else {
        Seq::empty()
    };
    let digits = dec_digits(int_abs(m));
    if k > 0 {
        let padded = if k > digits.len() - 1 {
            zeros((k - (digits.len() - 1)) as nat) + digits
        } else {
            digits
        };
        let split = padded.len() - k;
        sign + padded.subrange(0, split as int) + "."@ + padded.subrange(
            split as int,
            padded.len() as int,
        )
    } else {
        sign + digits
    }
}

/// The text of a rational under its preferred representation: decimal
/// when asked for and exactly representable, else fraction form.
pub open spec fn rat_chars(x: RatV, rep: RationalRepresentation) -> Seq<char> {
    match rep {
        RationalRepresentation::Fraction => frac_chars(x),
        RationalRepresentation::Decimal => match finite_dec_repr(x) {
            Some((m, k)) => dec_chars(x, m, k),
            None => frac_chars(x),
        },
    }
}

pub open spec fn rat_is_one_v(x: RatV) -> bool {
    x.n == 1 && x.d == 1
}

pub open spec fn rat_abs_v(x: RatV) -> RatV {
    if x.n < 0 {
        rat_neg_v(x)
    } else {
        x
    }
}

/// The text of a complex number, with the sign absorbed into the
/// operator and units printed as bare `i`.
pub open spec fn complex_chars(
    z: crate::number::ComplexV,
    rep: RationalRepresentation,
) -> Seq<char> {
    if z.im.n == 0 {
        rat_chars(z.re, rep)
    } else if z.re.n == 0 {
        if int_abs(z.im.n) == 1 && z.im.d == 1 {
            if z.im.n < 0 {
                "-i"@
            } else {
                "i"@
            }
        } else {
            rat_chars(z.im, rep) + "*i"@
        }
    } else if z.re.n < 0 && z.im.n > 0 {
        if rat_is_one_v(z.im) {
            "i - "@ + rat_chars(rat_abs_v(z.re), rep)
        } else {
            rat_chars(z.im, rep) + "*i - "@ + rat_chars(rat_abs_v(z.re), rep)
        }
    } else if int_abs(z.im.n) == 1 && z.im.d == 1 {
        rat_chars(z.re, rep) + (if z.im.n < 0 {
            " - "@
        } else {
            " + "@
        }) + "i"@
    } else {
        rat_chars(z.re, rep) + (if z.im.n < 0 {
            " - "@
        } else {
            " + "@
        }) + rat_chars(rat_abs_v(z.im), rep) + "*i"@
    }
}

/// A child of an infix node, parenthesized where needed.
pub open spec fn wrapped(child: Seq<char>, parens: bool) -> Seq<char> {
    if parens {
        "("@ + child + ")"@
    } else {
        child
    }
}

/// The rendering of an expression as text.
pub open spec fn print_v(e: ExprV) -> Seq<char>
    decreases e, 0nat, 1nat,
{
    match e {
        ExprV::Variable(s) => s,
        ExprV::Function(f, args) => {
            let fp = print_v(*f);
            let wrapped_f = wrapped(fp, prec_assoc_v(*f).0 < 5);
            wrapped_f + "("@ + print_elems_from(args, 0) + ")"@
        },
        ExprV::Integer(n) => int_dec_chars(n),
        ExprV::Rational(x, rep) => rat_chars(x, rep),
        ExprV::Complex(z, rep) => complex_chars(z, rep),
        ExprV::Vector(es) => "["@ + print_elems_from(es, 0) + "]"@,
        ExprV::Matrix(m) => "["@ + print_rows_from(m.grid, 0) + "]"@,
        ExprV::Boolean(b) => if b {
            "true"@
        } else {
            "false"@
        },
        ExprV::FunctionValue(name, _) => name,
        ExprV::Negation(a) => "-"@ + wrapped(print_v(*a), prec_assoc_v(*a).0 <= 3),
        ExprV::Not(a) => "!"@ + wrapped(print_v(*a), prec_assoc_v(*a).0 <= 3),
        ExprV::Sum(a, b) => print_infix(e, *a, " + "@, *b),
        ExprV::Difference(a, b) => print_infix(e, *a, " - "@, *b),
        ExprV::Product(a, b) => print_infix(e, *a, " * "@, *b),
        ExprV::Quotient(a, b) => print_infix(e, *a, " / "@, *b),
        ExprV::Remainder(a, b) => print_infix(e, *a, " % "@, *b),
        ExprV::Power(a, b) => print_infix(e, *a, " ^ "@, *b),
        ExprV::Equal(a, b) => print_infix(e, *a, " == "@, *b),
        ExprV::NotEqual(a, b) => print_infix(e, *a, " != "@, *b),
        ExprV::LessThan(a, b) => print_infix(e, *a, " < "@, *b),
        ExprV::LessThanOrEqual(a, b) => print_infix(e, *a, " <= "@, *b),
        ExprV::GreaterThan(a, b) => print_infix(e, *a, " > "@, *b),
        ExprV::GreaterThanOrEqual(a, b) => print_infix(e, *a, " >= "@, *b),
        ExprV::And(a, b) => print_infix(e, *a, " && "@, *b),
        ExprV::Or(a, b) => print_infix(e, *a, " || "@, *b),
    }
}

/// An infix node: both children rendered, parenthesized where needed,
/// with the operator symbol between them.
pub open spec fn print_infix(e: ExprV, a: ExprV, sym: Seq<char>, b: ExprV) -> Seq<char>
    decreases e, 0nat, 0nat,
    when (decreases_to!(e => a) && decreases_to!(e => b))
{
    let pa = prec_assoc_v(e);
    wrapped(print_v(a), needs_parens_left(pa, prec_assoc_v(a).0)) + sym + wrapped(
        print_v(b),
        needs_parens_right(pa, prec_assoc_v(b).0),
    )
}

/// The comma-separated renderings of the elements from index `i` on.
pub open spec fn print_elems_from(es: Seq<ExprV>, i: int) -> Seq<char>
    decreases es, es.len() - i, 0nat,
    when 0 <= i
{
    if i >= es.len() {
        Seq::empty()
    } else {
        (if i > 0 {
            ", "@
        } else {
            Seq::empty()
        }) + print_v(es[i]) + print_elems_from(es, i + 1)
    }
}

/// The comma-separated renderings of the rows from index `i` on, each
/// row bracketed like a vector.
pub open spec fn print_rows_from(rs: Seq<Seq<ExprV>>, i: int) -> Seq<char>
    decreases rs, rs.len() - i, 0nat,
    when 0 <= i
{
    if i >= rs.len() {
        Seq::empty()
    } else {
        (if i > 0 {
            ", "@
        } else {
            Seq::empty()
        }) + ("["@ + print_elems_from(rs[i], 0) + "]"@) + print_rows_from(rs, i + 1)
    }
}


// ------------------------------------------------------------------
// The executable printer.
// ------------------------------------------------------------------

proof fn lemma_dec_digits_len(v: nat)
    ensures
        dec_digits(v).len() >= 1,
    decreases v,
{
    if v >= 10 {
        lemma_dec_digits_len(v / 10);
    }
}

fn rat_is_one_e(x: &Rational) -> (r: bool)
    ensures
        r == rat_is_one_v(rat_v(*x)),
{
    let n = rat_numer_big(x);
    let d = rat_denom_big(x);
    let one = big_from_u64(1);
    crate::number::big_eq(&n, &one) && crate::number::big_eq(&d, &one)
}

fn write_frac(x: &Rational, out: &mut String)
    ensures
        final(out)@ == old(out)@ + frac_chars(rat_v(*x)),
{
    let n = rat_numer_big(x);
    let ns = big_to_dec_string(&n);
    out.append(ns.as_str());
    let d = rat_denom_big(x);
    let one = big_from_u64(1);
    if !crate::number::big_eq(&d, &one) {
        out.append("/");
        let ds = big_to_dec_string(&d);
        out.append(ds.as_str());
        proof {
            assert(final(out)@ =~= old(out)@ + frac_chars(rat_v(*x)));
        }
    }
}

fn write_decimal(x: &Rational, m: &num::bigint::BigInt, k: usize, out: &mut String)
    requires
        finite_dec_repr(rat_v(*x)) == Some((crate::number::big_int_value(*m), k as nat)),
    ensures
        final(out)@ == old(out)@ + dec_chars(
            rat_v(*x),
            crate::number::big_int_value(*m),
            k as nat,
        ),
{
    let ghost mv = crate::number::big_int_value(*m);
    if rat_is_negative(x) {
        out.append("-");
    }
    let ghost after_sign = out@;
    let zero = big_from_u64(0);
    let abs_m = if big_lt(m, &zero) {
        big_neg(m)
    } else {
        crate::number::big_clone(m)
    };
    proof {
        assert(crate::number::big_int_value(abs_m) == int_abs(mv));
    }
    let digits = big_to_dec_string(&abs_m);
    proof {
        assert(digits@ == dec_digits(int_abs(mv)));
        lemma_dec_digits_len(int_abs(mv));
    }
    if k == 0 {
        out.append(digits.as_str());
        proof {
            assert(final(out)@ =~= old(out)@ + dec_chars(rat_v(*x), mv, k as nat));
        }
        return ;
    }
    let dl = digits.as_str().unicode_len();
    let padded: String = if k > dl - 1 {
        let mut p = String::new();
        let pad = k - (dl - 1);
        let mut j: usize = 0;
        proof {
            assert(p@ =~= zeros(0));
        }
        while j < pad
            invariant
                0 <= j <= pad,
                p@ == zeros(j as nat),
            decreases pad - j,
        {
            p.append("0");
            proof {
                reveal_strlit("0");
                assert(p@ =~= zeros((j + 1) as nat));
            }
            j = j + 1;
        }
        let mut p2 = p;
        p2.append(digits.as_str());
        p2
    } else {
        digits
    };
    proof {
        assert(padded@ == (if k > dec_digits(int_abs(mv)).len() - 1 {
            zeros((k - (dec_digits(int_abs(mv)).len() - 1)) as nat) + dec_digits(int_abs(mv))
        } else {
            dec_digits(int_abs(mv))
        }));
    }
    let pl = padded.as_str().unicode_len();
    let split = pl - k;
    let left = padded.as_str().substring_char(0, split);
    out.append(left);
    out.append(".");
    let right = padded.as_str().substring_char(split, pl);
    out.append(right);
    proof {
        assert(final(out)@ =~= old(out)@ + dec_chars(rat_v(*x), mv, k as nat));
    }
}

fn write_rational(x: &Rational, rep: RationalRepresentation, out: &mut String)
    requires
        rat_v(*x).d > 0,
    ensures
        final(out)@ == old(out)@ + rat_chars(rat_v(*x), rep),
{
    match rep {
        RationalRepresentation::Fraction => write_frac(x, out),
        RationalRepresentation::Decimal => {
            match decimal_representation(x) {
                Some((m, k)) => write_decimal(x, &m, k, out),
                None => write_frac(x, out),
            }
        },
    }
}

#[verifier::rlimit(100)]
#[verifier::spinoff_prover]
fn write_complex(z: &crate::expression::Complex, rep: RationalRepresentation, out: &mut String)
    requires
        complex_v_wf(z.view_c()),
    ensures
        final(out)@ == old(out)@ + complex_chars(z.view_c(), rep),
{
    let im_zero = rat_is_zero(&z.im);
    let re_zero = rat_is_zero(&z.re);
    if im_zero {
        write_rational(&z.re, rep, out);
    } else if re_zero {
        if crate::expression::rational_is_unit(&z.im) {
            if rat_is_negative(&z.im) {
                out.append("-i");
            } else {
                out.append("i");
            }
        } else {
            write_rational(&z.im, rep, out);
            out.append("*i");
            proof {
                assert(final(out)@ =~= old(out)@ + complex_chars(z.view_c(), rep));
            }
        }
    } else if rat_is_negative(&z.re) && !rat_is_negative(&z.im) {
        let abs_re = rat_neg(&z.re);
        if rat_is_one_e(&z.im) {
            out.append("i - ");
            write_rational(&abs_re, rep, out);
            proof {
                assert(final(out)@ =~= old(out)@ + complex_chars(z.view_c(), rep));
            }
        } else {
            write_rational(&z.im, rep, out);
            out.append("*i - ");
            write_rational(&abs_re, rep, out);
            proof {
                assert(final(out)@ =~= old(out)@ + complex_chars(z.view_c(), rep));
            }
        }
    } else {
        write_rational(&z.re, rep, out);
        if rat_is_negative(&z.im) {
            out.append(" - ");
        } else {
            out.append(" + ");
        }
        if crate::expression::rational_is_unit(&z.im) {
            out.append("i");
            proof {
                assert(final(out)@ =~= old(out)@ + complex_chars(z.view_c(), rep));
            }
        } else {
            let abs_im = if rat_is_negative(&z.im) {
                rat_neg(&z.im)
            } else {
                crate::number::rat_clone(&z.im)
            };
            write_rational(&abs_im, rep, out);
            out.append("*i");
            proof {
                assert(final(out)@ =~= old(out)@ + complex_chars(z.view_c(), rep));
            }
        }
    }
}

#[verifier::rlimit(50)]
fn write_elems(es: &Vec<Expression>, out: &mut String)
    requires
        wf_v_seq(expr_v_seq(es@)),
    ensures
        final(out)@ == old(out)@ + print_elems_from(expr_v_seq(es@), 0),
    decreases *es, 0nat, 0nat,
{
    let ghost esv = expr_v_seq(es@);
    proof {
        lemma_expr_v_seq_len(es@);
    }
    let mut i: usize = 0;
    while i < es.len()
        invariant
            0 <= i <= es@.len(),
            esv == expr_v_seq(es@),
            esv.len() == es@.len(),
            wf_v_seq(esv),
            out@ + print_elems_from(esv, i as int) == old(out)@ + print_elems_from(esv, 0),
        decreases es@.len() - i,
    {
        proof {
            assert(decreases_to!(*es => es@));
            assert(decreases_to!(es@ => es@[i as int]));
            lemma_expr_v_seq_index(es@, i as int);
            lemma_wf_v_seq_index(esv, i as int);
        }
        let ghost before = out@;
        if i > 0 {
            out.append(", ");
        }
        write_expr(&es[i], out);
        proof {
            assert(out@ + print_elems_from(esv, i as int + 1) =~= before + print_elems_from(
                esv,
                i as int,
            ));
            assert(out@ + print_elems_from(esv, i as int + 1) =~= old(out)@ + print_elems_from(
                esv,
                0,
            ));
        }
        i = i + 1;
    }
    proof {
        assert(out@ + print_elems_from(esv, esv.len() as int) =~= out@);
    }
}

#[verifier::rlimit(50)]
fn write_call(e: &Expression, f: &Expression, args: &Vec<Expression>, out: &mut String)
    requires
        wf_v(f@),
        wf_v_seq(expr_v_seq(args@)),
        decreases_to!(*e => *f),
        decreases_to!(*e => *args),
    ensures
        final(out)@ == old(out)@ + wrapped(print_v(f@), prec_assoc_v(f@).0 < 5) + "("@
            + print_elems_from(expr_v_seq(args@), 0) + ")"@,
    decreases *e, 0nat, 0nat,
{
    let p = f.precedence();
    let parens = p < 5;
    if parens {
        out.append("(");
    }
    write_expr(f, out);
    if parens {
        out.append(")");
    }
    out.append("(");
    write_elems(args, out);
    out.append(")");
    proof {
        assert(final(out)@ =~= old(out)@ + wrapped(print_v(f@), prec_assoc_v(f@).0 < 5) + "("@
            + print_elems_from(expr_v_seq(args@), 0) + ")"@);
    }
}

#[verifier::rlimit(50)]
fn write_matrix(e: &Expression, m: &Matrix, out: &mut String)
    requires
        wf_v_grid(expr_v_rows(m.entries@)),
        decreases_to!(*e => *m),
    ensures
        final(out)@ == old(out)@ + "["@ + print_rows_from(expr_v_rows(m.entries@), 0) + "]"@,
    decreases *e, 0nat, 0nat,
{
    let ghost grid = expr_v_rows(m.entries@);
    proof {
        lemma_expr_v_rows_len(m.entries@);
    }
    out.append("[");
    let ghost base = out@;
    let mut r: usize = 0;
    while r < m.entries.len()
        invariant
            0 <= r <= m.entries@.len(),
            decreases_to!(*e => *m),
            grid == expr_v_rows(m.entries@),
            grid.len() == m.entries@.len(),
            wf_v_grid(grid),
            out@ + print_rows_from(grid, r as int) == base + print_rows_from(grid, 0),
        decreases m.entries@.len() - r,
    {
        proof {
            assert(decreases_to!(*m => m.entries));
            assert(decreases_to!(m.entries => m.entries@));
            assert(decreases_to!(m.entries@ => m.entries@[r as int]));
            lemma_expr_v_rows_index(m.entries@, r as int);
            lemma_wf_v_grid_index(grid, r as int);
        }
        let ghost before = out@;
        if r > 0 {
            out.append(", ");
        }
        out.append("[");
        write_elems(&m.entries[r], out);
        out.append("]");
        proof {
            assert(out@ + print_rows_from(grid, r as int + 1) =~= before + print_rows_from(
                grid,
                r as int,
            ));
            assert(out@ + print_rows_from(grid, r as int + 1) =~= base + print_rows_from(
                grid,
                0,
            ));
        }
        r = r + 1;
    }
    out.append("]");
    proof {
        assert(print_rows_from(grid, grid.len() as int) =~= Seq::empty());
        assert(final(out)@ =~= old(out)@ + "["@ + print_rows_from(grid, 0) + "]"@);
    }
}

/// Writes one infix node: children wrapped by the parenthesization rule,
/// the operator symbol between them.
#[verifier::rlimit(50)]
fn write_infix(e: &Expression, a: &Expression, sym: &str, b: &Expression, out: &mut String)
    requires
        wf_v(e@),
        wf_v(a@),
        wf_v(b@),
        decreases_to!(e@ => a@),
        decreases_to!(e@ => b@),
        decreases_to!(*e => *a),
        decreases_to!(*e => *b),
    ensures
        final(out)@ == old(out)@ + print_infix(e@, a@, sym@, b@),
    decreases *e, 0nat, 0nat,
{
    let (sp, sa) = e.precedence_and_associativity();
    let ap = a.precedence();
    let bp = b.precedence();
    let a_parens = ap < sp || (ap == sp && matches!(sa, Associativity::RightAssociative));
    let b_parens = bp < sp || (bp == sp && matches!(sa, Associativity::LeftAssociative));
    if a_parens {
        out.append("(");
    }
    write_expr(a, out);
    if a_parens {
        out.append(")");
    }
    out.append(sym);
    if b_parens {
        out.append("(");
    }
    write_expr(b, out);
    if b_parens {
        out.append(")");
    }
    proof {
        assert(final(out)@ =~= old(out)@ + print_infix(e@, a@, sym@, b@));
    }
}

/// Writes the rendering of `e` onto the end of `out`.
#[verifier::rlimit(50)]
#[verifier::spinoff_prover]
fn write_expr(e: &Expression, out: &mut String)
    requires
        wf_v(e@),
    ensures
        final(out)@ == old(out)@ + print_v(e@),
    decreases *e, 0nat, 1nat,
{
    match e {
        Expression::Variable(s) => {
            out.append(s.as_str());
        },
        Expression::Function(f, args) => {
            proof {
                assert(decreases_to!(*e => e->Function_0));
                assert(decreases_to!(*e => e->Function_1));
                assert(e->Function_1 == *args);
            }
            write_call(e, f, args, out);
            proof {
                assert(final(out)@ =~= old(out)@ + print_v(e@));
            }
        },
        Expression::Integer(n) => {
            let s = big_to_dec_string(n);
            out.append(s.as_str());
        },
        Expression::Rational(x, rep) => {
            write_rational(x, *rep, out);
        },
        Expression::Complex(z, rep) => {
            write_complex(z, *rep, out);
        },
        Expression::Vector(es) => {
            proof {
                assert(decreases_to!(*e => e->Vector_0));
                assert(e->Vector_0 == *es);
            }
            out.append("[");
            write_elems(es, out);
            out.append("]");
            proof {
                assert(final(out)@ =~= old(out)@ + print_v(e@));
            }
        },
        Expression::Matrix(m) => {
            proof {
                assert(decreases_to!(*e => e->Matrix_0));
                assert(e->Matrix_0 == *m);
            }
            write_matrix(e, m, out);
            proof {
                assert(final(out)@ =~= old(out)@ + print_v(e@));
            }
        },
        Expression::Boolean(b) => {
            if *b {
                out.append("true");
            } else {
                out.append("false");
            }
        },
        Expression::FunctionValue(name, _) => {
            out.append(name.as_str());
        },
        Expression::Negation(a) => {
            out.append("-");
            let p = a.precedence();
            let parens = p <= 3;
            if parens {
                out.append("(");
            }
            write_expr(a, out);
            if parens {
                out.append(")");
            }
            proof {
                assert(final(out)@ =~= old(out)@ + print_v(e@));
            }
        },
        Expression::Not(a) => {
            out.append("!");
            let p = a.precedence();
            let parens = p <= 3;
            if parens {
                out.append("(");
            }
            write_expr(a, out);
            if parens {
                out.append(")");
            }
            proof {
                assert(final(out)@ =~= old(out)@ + print_v(e@));
            }
        },
        Expression::Sum(a, b) => write_infix(e, a, " + ", b, out),
        Expression::Difference(a, b) => write_infix(e, a, " - ", b, out),
        Expression::Product(a, b) => write_infix(e, a, " * ", b, out),
        Expression::Quotient(a, b) => write_infix(e, a, " / ", b, out),
        Expression::Remainder(a, b) => write_infix(e, a, " % ", b, out),
        Expression::Power(a, b) => write_infix(e, a, " ^ ", b, out),
        Expression::Equal(a, b) => write_infix(e, a, " == ", b, out),
        Expression::NotEqual(a, b) => write_infix(e, a, " != ", b, out),
        Expression::LessThan(a, b) => write_infix(e, a, " < ", b, out),
        Expression::LessThanOrEqual(a, b) => write_infix(e, a, " <= ", b, out),
        Expression::GreaterThan(a, b) => write_infix(e, a, " > ", b, out),
        Expression::GreaterThanOrEqual(a, b) => write_infix(e, a, " >= ", b, out),
        Expression::And(a, b) => write_infix(e, a, " && ", b, out),
        Expression::Or(a, b) => write_infix(e, a, " || ", b, out),
    }
}

impl Expression {
    /// Renders the expression as text with minimal parenthesization.
    pub fn to_text(&self) -> (r: String)
        requires
            wf_v(self@),
        ensures
            r@ == print_v(self@),
    {
        let mut out = String::new();
        write_expr(self, &mut out);
        out
    }
}

} // verus!
