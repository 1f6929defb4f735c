//! Laws relating the library's functions: rendering a literal and
//! parsing the text back yields the same tree, and evaluation fixes the
//! scalar results it produces.
//!
//! The round trip holds only for literals whose printed form is itself
//! literal syntax: non-negative integers and booleans.  A negative
//! integer prints as `-n` and parses back as a negation node; a
//! fraction-form rational prints as `n/d` and parses back as a quotient
//! node; and a vector whose elements are equal-length vectors prints as
//! a matrix literal.  Those are exactly the normalizations the printer
//! is allowed.

use vstd::prelude::*;
use crate::evaluate::{eval_s, ErrV};
use crate::expression::ExprV;
use crate::number::{dec_digits, digit_char, int_dec_chars};
use crate::parse::{
    comparison_op_at, dec_val, digit_val, is_digit, is_ident_char, is_ident_start, is_ws,
    p_atom, p_call, p_comparison, p_comparison_tail, p_conjunction, p_conjunction_tail,
    p_expr, p_expr_tail, p_identifier, p_negation, p_number, p_power, p_product,
    p_product_tail, p_sum, p_sum_tail, parse_v, scan_digits, scan_ident, skip_ws,
};
use crate::print::print_v;

verus! {

/// The decimal digits of a value read back as that value, with the
/// shape facts the parser needs: at least one character, all digits,
/// no leading zero unless the value is zero.
proof fn lemma_dec_digits_facts(v: nat)
    ensures
        dec_digits(v).len() >= 1,
        forall|i: int| 0 <= i < dec_digits(v).len() ==> is_digit(#[trigger] dec_digits(v)[i]),
        v >= 1 ==> dec_digits(v)[0] != '0',
        v == 0 ==> dec_digits(v) == seq!['0'],
        dec_val(dec_digits(v)) == v,
    decreases v,
{
    if v < 10 {
        let c = digit_char(v);
        assert(is_digit(c) && digit_val(c) == v) by {
            if v == 0 {
                assert(c == '0');
            } else if v == 1 {
                assert(c == '1');
            } else if v == 2 {
                assert(c == '2');
            } else if v == 3 {
                assert(c == '3');
            } else if v == 4 {
                assert(c == '4');
            } else if v == 5 {
                assert(c == '5');
            } else if v == 6 {
                assert(c == '6');
            } else if v == 7 {
                assert(c == '7');
            } else if v == 8 {
                assert(c == '8');
            } else {
                assert(c == '9');
            }
        }
        assert(dec_digits(v) == seq![c]);
        assert(dec_val(Seq::<char>::empty()) == 0);
        assert(dec_digits(v).drop_last() =~= Seq::<char>::empty());
        assert(dec_digits(v).last() == c);
        assert(dec_val(dec_digits(v)) == v);
    } else {
        lemma_dec_digits_facts(v / 10);
        let s = dec_digits(v / 10);
        let c = digit_char(v % 10);
        assert(is_digit(c) && digit_val(c) == v % 10) by {
            lemma_dec_digits_facts(v % 10);
            assert(dec_digits((v % 10) as nat) == seq![c]);
            assert(dec_val(seq![c]) == v % 10) by {
                assert(dec_val(Seq::<char>::empty()) == 0);
                assert(seq![c].drop_last() =~= Seq::<char>::empty());
                assert(seq![c].last() == c);
            }
        }
        assert(dec_digits(v) == s.push(c));
        assert(s.push(c).drop_last() =~= s);
        assert(s.push(c).last() == c);
        assert(dec_val(dec_digits(v)) == dec_val(s) * 10 + digit_val(c));
        vstd::arithmetic::div_mod::lemma_fundamental_div_mod(v as int, 10);
        assert(forall|i: int| 0 <= i < s.push(c).len() ==> is_digit(#[trigger] s.push(c)[i]));
    }
}

proof fn lemma_scan_digits_full(s: Seq<char>, i: int)
    requires
        0 <= i <= s.len(),
        forall|k: int| i <= k < s.len() ==> is_digit(#[trigger] s[k]),
    ensures
        scan_digits(s, i) == s.len(),
    decreases s.len() - i,
{
    if i < s.len() {
        lemma_scan_digits_full(s, i + 1);
    }
}

/// Every level of the grammar passes a parsed value through unchanged
/// when the input is exhausted at its position.
proof fn lemma_tower_at_end(s: Seq<char>, v: ExprV)
    requires
        p_atom(s, 0) == Some((v, s.len() as int)),
        s.len() >= 1,
        !is_ws(s[0]),
        s[0] != '-',
        s[0] != '!',
    ensures
        p_expr(s, 0) == Some((v, s.len() as int)),
{
    let n = s.len() as int;
    assert(skip_ws(s, 0) == 0);
    assert(p_call(s, 0) == Some((v, n)));
    assert(p_power(s, 0) == Some((v, n)));
    assert(p_negation(s, 0) == Some((v, n)));
    assert(p_product_tail(s, v, n) == Some((v, n)));
    assert(p_product(s, 0) == Some((v, n)));
    assert(p_sum_tail(s, v, n) == Some((v, n)));
    assert(p_sum(s, 0) == Some((v, n)));
    assert(comparison_op_at(s, n) is None);
    assert(p_comparison_tail(s, v, n) == Some((v, n)));
    assert(p_comparison(s, 0) == Some((v, n)));
    assert(p_conjunction_tail(s, v, n) == Some((v, n)));
    assert(p_conjunction(s, 0) == Some((v, n)));
    assert(p_expr_tail(s, v, n) == Some((v, n)));
    assert(p_expr(s, 0) == Some((v, n)));
}

/// Printing a non-negative integer literal and parsing the text back
/// yields the same literal.
#[verifier::rlimit(100)]
#[verifier::spinoff_prover]
pub proof fn lemma_round_trip_integer(n: int)
    requires
        n >= 0,
    ensures
        parse_v(print_v(ExprV::Integer(n))) == Some(ExprV::Integer(n)),
{
    let s = int_dec_chars(n);
    assert(s == dec_digits(n as nat));
    lemma_dec_digits_facts(n as nat);
    let len = s.len() as int;
    assert(!is_ws(s[0]) && !is_ident_start(s[0]));
    // The number token covers the whole text.
    lemma_scan_digits_full(s, 0);
    if n == 0 {
        assert(s[0] == '0');
        assert(len == 1);
    } else {
        assert(s[0] != '0');
    }
    let e: int = if s[0] == '0' {
        1
    } else {
        scan_digits(s, 0)
    };
    assert(e == len);
    assert(!(e + 1 < len));
    assert(s.subrange(0, len) =~= s);
    assert(p_number(s, 0) == Some((ExprV::Integer(n), len)));
    assert(skip_ws(s, 0) == 0);
    assert(skip_ws(s, len) == len);
    assert(p_atom(s, 0) == Some((ExprV::Integer(n), len)));
    lemma_tower_at_end(s, ExprV::Integer(n));
}

/// Printing a boolean literal and parsing the text back yields the same
/// literal.
#[verifier::rlimit(100)]
#[verifier::spinoff_prover]
pub proof fn lemma_round_trip_boolean(b: bool)
    ensures
        parse_v(print_v(ExprV::Boolean(b))) == Some(ExprV::Boolean(b)),
{
    reveal_strlit("true");
    reveal_strlit("false");
    let s = print_v(ExprV::Boolean(b));
    let len = s.len() as int;
    if b {
        assert(s == "true"@);
        assert(s.len() == 4);
        assert(s[0] == 't' && s[1] == 'r' && s[2] == 'u' && s[3] == 'e');
    } else {
        assert(s == "false"@);
        assert(s.len() == 5);
        assert(s[0] == 'f' && s[1] == 'a' && s[2] == 'l' && s[3] == 's' && s[4] == 'e');
    }
    assert(!is_ws(s[0]) && is_ident_start(s[0]));
    assert(scan_ident(s, len) == len);
    assert forall|i: int| 0 <= i < len implies scan_ident(s, i) == len by {
        lemma_scan_ident_full(s, i);
    }
    assert(scan_ident(s, 0) == len);
    assert(s.subrange(0, len) =~= s);
    assert(p_identifier(s, 0) == Some((ExprV::Boolean(b), len)));
    assert(skip_ws(s, 0) == 0);
    assert(skip_ws(s, len) == len);
    assert(p_atom(s, 0) == Some((ExprV::Boolean(b), len)));
    lemma_tower_at_end(s, ExprV::Boolean(b));
}

proof fn lemma_scan_ident_full(s: Seq<char>, i: int)
    requires
        0 <= i <= s.len(),
        forall|k: int| 0 <= k < s.len() ==> is_ident_char(#[trigger] s[k]),
    ensures
        scan_ident(s, i) == s.len(),
    decreases s.len() - i,
{
    if i < s.len() {
        lemma_scan_ident_full(s, i + 1);
    }
}


/// The base cases of evaluation idempotence: an expression that
/// evaluation can return as a scalar result — a demoted numeric literal,
/// a boolean, a function value, or a variable the context does not bind
/// — evaluates to itself, whatever the context and depth budget.  (The
/// idempotence of evaluation on arbitrary expressions is checked by the
/// test suite but is not proved here.)
pub proof fn lemma_evaluate_fixes_scalar_results(
    r: ExprV,
    ctx: Map<Seq<char>, ExprV>,
    depth: nat,
)
    requires
        match r {
            ExprV::Integer(_) => true,
            ExprV::Boolean(_) => true,
            ExprV::FunctionValue(_, _) => true,
            ExprV::Rational(x, _) => x.d != 1,
            ExprV::Complex(z, _) => z.im.n != 0,
            ExprV::Variable(x) => !ctx.dom().contains(x),
            _ => false,
        },
    ensures
        eval_s(r, ctx, depth) == Ok::<ExprV, ErrV>(r),
{
}

} // verus!
