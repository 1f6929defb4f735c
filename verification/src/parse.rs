//! The parser: builds an expression tree from text by precedence
//! climbing.  The grammar is defined mathematically by the `p_*` spec
//! functions over character sequences; `parse` is proved to accept
//! exactly the texts that `parse_v` accepts and to build exactly the
//! tree it describes.
//!
//! Grammar, loosest to tightest: `||`; `&&`; comparisons (left-folded);
//! `+ -`; `* / %`; unary `- !`; `^` (right-associative); function
//! application; atoms (identifiers with `true` / `false` reserved,
//! integer and decimal literals, parenthesized expressions, bracketed
//! vector or matrix literals).  Whitespace is insignificant except
//! inside multi-character tokens.

use vstd::prelude::*;
use crate::expression::{Expression, ExprV, MatV, wf_v, wf_v_seq, expr_v_seq};
use crate::number::norm_rat;
use vstd::arithmetic::power::pow;

verus! {

pub open spec fn is_ws(c: char) -> bool {
    c == ' ' || c == '\t' || c == '\n' || c == '\r'
}

pub open spec fn is_digit(c: char) -> bool {
    '0' <= c && c <= '9'
}

pub open spec fn is_ident_start(c: char) -> bool {
    ('a' <= c && c <= 'z') || ('A' <= c && c <= 'Z') || c == '_'
}

pub open spec fn is_ident_char(c: char) -> bool {
    is_ident_start(c) || is_digit(c)
}

pub open spec fn digit_val(c: char) -> int {
    c as int - '0' as int
}

/// The value of a run of decimal digits.
pub open spec fn dec_val(s: Seq<char>) -> int
    decreases s.len(),
{
    if s.len() == 0 {
        0
    } else {
        dec_val(s.drop_last()) * 10 + digit_val(s.last())
    }
}

/// The first position at or after `i` holding no whitespace.
pub open spec fn skip_ws(s: Seq<char>, i: int) -> int
    decreases s.len() - i,
    when 0 <= i <= s.len()
{
    if i < s.len() && is_ws(s[i]) {
        skip_ws(s, i + 1)
    } else {
        i
    }
}

/// The end of the run of digits starting at `i`.
pub open spec fn scan_digits(s: Seq<char>, i: int) -> int
    decreases s.len() - i,
    when 0 <= i <= s.len()
{
    if i < s.len() && is_digit(s[i]) {
        scan_digits(s, i + 1)
    } else {
        i
    }
}

/// The end of the run of identifier characters starting at `i`.
pub open spec fn scan_ident(s: Seq<char>, i: int) -> int
    decreases s.len() - i,
    when 0 <= i <= s.len()
{
    if i < s.len() && is_ident_char(s[i]) {
        scan_ident(s, i + 1)
    } else {
        i
    }
}

pub proof fn lemma_skip_ws_le(s: Seq<char>, i: int)
    requires
        0 <= i <= s.len(),
    ensures
        i <= skip_ws(s, i) <= s.len(),
    decreases s.len() - i,
{
    if i < s.len() && is_ws(s[i]) {
        lemma_skip_ws_le(s, i + 1);
    }
}

pub proof fn lemma_scan_digits_le(s: Seq<char>, i: int)
    requires
        0 <= i <= s.len(),
    ensures
        i <= scan_digits(s, i) <= s.len(),
    decreases s.len() - i,
{
    if i < s.len() && is_digit(s[i]) {
        lemma_scan_digits_le(s, i + 1);
    }
}

pub proof fn lemma_scan_ident_le(s: Seq<char>, i: int)
    requires
        0 <= i <= s.len(),
    ensures
        i <= scan_ident(s, i) <= s.len(),
    decreases s.len() - i,
{
    if i < s.len() && is_ident_char(s[i]) {
        lemma_scan_ident_le(s, i + 1);
    }
}

/// The reinterpretation of a bracketed literal: if the first element is
/// a vector and every element is a vector of the same length, the
/// elements become the rows of a matrix; otherwise it is a flat vector.
pub open spec fn vec_or_matrix(elems: Seq<ExprV>) -> ExprV {
    if elems.len() > 0 && (elems[0] is Vector) && (forall|k: int|
        0 <= k < elems.len() ==> (#[trigger] elems[k]) is Vector && elems[k]->Vector_0.len()
            == elems[0]->Vector_0.len()) {
        ExprV::Matrix(
            (MatV {
                rows: elems.len(),
                cols: elems[0]->Vector_0.len(),
                grid: Seq::new(elems.len(), |k: int| elems[k]->Vector_0),
            }),
        )
    } else {
        ExprV::Vector(elems)
    }
}

/// A number literal at `i` (which must hold a digit): an integer, or a
/// rational with decimal representation when a fractional part follows.
/// The integer part is either a single `0` or starts with a non-zero
/// digit.
pub open spec fn p_number(s: Seq<char>, i: int) -> Option<(ExprV, int)>
    recommends
        0 <= i < s.len(),
        is_digit(s[i]),
{
    let e = if s[i] == '0' {
        i + 1
    } else {
        scan_digits(s, i)
    };
    if 0 <= i && i < e && e <= s.len() {
        if e + 1 < s.len() && s[e] == '.' && is_digit(s[e + 1]) {
            let f = scan_digits(s, e + 1);
            if e + 1 < f && f <= s.len() {
                let numer = dec_val(s.subrange(i, e) + s.subrange(e + 1, f));
                let denom = pow(10, (f - e - 1) as nat);
                Some(
                    (
                        ExprV::Rational(
                            norm_rat(numer, denom),
                            crate::expression::RationalRepresentation::Decimal,
                        ),
                        f,
                    ),
                )
            } else {
                None
            }
        } else {
            Some((ExprV::Integer(dec_val(s.subrange(i, e))), e))
        }
    } else {
        None
    }
}

/// An identifier at `i`: `true` and `false` are boolean literals,
/// anything else is a variable.
pub open spec fn p_identifier(s: Seq<char>, i: int) -> Option<(ExprV, int)>
    recommends
        0 <= i < s.len(),
        is_ident_start(s[i]),
{
    let e = scan_ident(s, i);
    if 0 <= i && i < e && e <= s.len() {
        let name = s.subrange(i, e);
        if name == "true"@ {
            Some((ExprV::Boolean(true), e))
        } else if name == "false"@ {
            Some((ExprV::Boolean(false), e))
        } else {
            Some((ExprV::Variable(name), e))
        }
    } else {
        None
    }
}

/// An atom, with surrounding whitespace consumed: an identifier, a
/// number, a bracketed vector or matrix literal, or a parenthesized
/// expression.
pub open spec fn p_atom(s: Seq<char>, i: int) -> Option<(ExprV, int)>
    decreases s.len() - i, 1nat,
    when 0 <= i <= s.len()
{
    let j = skip_ws(s, i);
    proof {
        lemma_skip_ws_le(s, i);
    }
    if j < s.len() && is_ident_start(s[j]) {
        match p_identifier(s, j) {
            Some((v, e)) => {
                proof {
                    lemma_scan_ident_le(s, j);
                }
                Some((v, skip_ws(s, e)))
            },
            None => None,
        }
    } else if j < s.len() && is_digit(s[j]) {
        match p_number(s, j) {
            Some((v, e)) => if j < e && e <= s.len() {
                Some((v, skip_ws(s, e)))
            } else {
                None
            },
            None => None,
        }
    } else if j < s.len() && s[j] == '[' {
        match p_bracket_list(s, j + 1) {
            Some((elems, e)) => if j < e && e <= s.len() {
                Some((vec_or_matrix(elems), skip_ws(s, e)))
            } else {
                None
            },
            None => None,
        }
    } else if j < s.len() && s[j] == '(' {
        match p_expr(s, j + 1) {
            Some((v, e)) => if j < e && e <= s.len() && e < s.len() && s[e] == ')' {
                Some((v, skip_ws(s, e + 1)))
            } else {
                None
            },
            None => None,
        }
    } else {
        None
    }
}

/// The elements of a bracketed literal after the opening `[`, up to and
/// including the closing `]`.
pub open spec fn p_bracket_list(s: Seq<char>, i: int) -> Option<(Seq<ExprV>, int)>
    decreases s.len() - i, 14nat,
    when 0 <= i <= s.len()
{
    let j = skip_ws(s, i);
    proof {
        lemma_skip_ws_le(s, i);
    }
    if j < s.len() && s[j] == ']' {
        Some((Seq::empty(), j + 1))
    } else {
        match p_expr(s, j) {
            Some((v, e)) => if i < e && e <= s.len() {
                p_list_tail(s, seq![v], e, ']')
            } else {
                None
            },
            None => None,
        }
    }
}

/// Further comma-separated elements, up to and including the closing
/// delimiter.
pub open spec fn p_list_tail(s: Seq<char>, acc: Seq<ExprV>, i: int, close: char) -> Option<
    (Seq<ExprV>, int),
>
    decreases s.len() - i, 15nat,
    when 0 <= i <= s.len()
{
    if i < s.len() && s[i] == close {
        Some((acc, i + 1))
    } else if i < s.len() && s[i] == ',' {
        match p_expr(s, i + 1) {
            Some((v, e)) => if i + 1 <= e && e <= s.len() {
                p_list_tail(s, acc.push(v), e, close)
            } else {
                None
            },
            None => None,
        }
    } else {
        None
    }
}

/// A function application: an atom optionally followed by one
/// parenthesized argument list.
pub open spec fn p_call(s: Seq<char>, i: int) -> Option<(ExprV, int)>
    decreases s.len() - i, 2nat,
    when 0 <= i <= s.len()
{
    match p_atom(s, i) {
        Some((f, j)) => if i < j && j <= s.len() {
            if j < s.len() && s[j] == '(' {
                match p_arg_list(s, j + 1) {
                    Some((args, e)) => if j + 1 <= e && e <= s.len() {
                        Some((ExprV::Function(Box::new(f), args), skip_ws(s, e)))
                    } else {
                        None
                    },
                    None => None,
                }
            } else {
                Some((f, j))
            }
        } else {
            None
        },
        None => None,
    }
}

/// The arguments of a call after the opening `(`, up to and including
/// the closing `)`.
pub open spec fn p_arg_list(s: Seq<char>, i: int) -> Option<(Seq<ExprV>, int)>
    decreases s.len() - i, 14nat,
    when 0 <= i <= s.len()
{
    let j = skip_ws(s, i);
    proof {
        lemma_skip_ws_le(s, i);
    }
    if j < s.len() && s[j] == ')' {
        Some((Seq::empty(), j + 1))
    } else {
        match p_expr(s, j) {
            Some((v, e)) => if i < e && e <= s.len() {
                p_list_tail(s, seq![v], e, ')')
            } else {
                None
            },
            None => None,
        }
    }
}

/// A power: right-associative `^` over function applications.
pub open spec fn p_power(s: Seq<char>, i: int) -> Option<(ExprV, int)>
    decreases s.len() - i, 3nat,
    when 0 <= i <= s.len()
{
    match p_call(s, i) {
        Some((a, j)) => if i < j && j <= s.len() {
            if j < s.len() && s[j] == '^' {
                match p_power(s, j + 1) {
                    Some((b, e)) => Some((ExprV::Power(Box::new(a), Box::new(b)), e)),
                    None => None,
                }
            } else {
                Some((a, j))
            }
        } else {
            None
        },
        None => None,
    }
}

/// A unary prefix `-` or `!` applied to a power, or a bare power.
pub open spec fn p_negation(s: Seq<char>, i: int) -> Option<(ExprV, int)>
    decreases s.len() - i, 4nat,
    when 0 <= i <= s.len()
{
    let j = skip_ws(s, i);
    proof {
        lemma_skip_ws_le(s, i);
    }
    if j < s.len() && s[j] == '-' {
        match p_power(s, j + 1) {
            Some((a, e)) => Some((ExprV::Negation(Box::new(a)), e)),
            None => None,
        }
    } else if j < s.len() && s[j] == '!' && !(j + 1 < s.len() && s[j + 1] == '=') {
        match p_power(s, j + 1) {
            Some((a, e)) => Some((ExprV::Not(Box::new(a)), e)),
            None => None,
        }
    } else {
        p_power(s, i)
    }
}

/// Products, quotients and remainders, left-folded.
pub open spec fn p_product(s: Seq<char>, i: int) -> Option<(ExprV, int)>
    decreases s.len() - i, 5nat,
    when 0 <= i <= s.len()
{
    match p_negation(s, i) {
        Some((a, j)) => if i < j && j <= s.len() {
            p_product_tail(s, a, j)
        } else {
            None
        },
        None => None,
    }
}

pub open spec fn p_product_tail(s: Seq<char>, acc: ExprV, i: int) -> Option<(ExprV, int)>
    decreases s.len() - i, 6nat,
    when 0 <= i <= s.len()
{
    if i < s.len() && (s[i] == '*' || s[i] == '/' || s[i] == '%') {
        match p_negation(s, i + 1) {
            Some((b, e)) => if i + 1 <= e && e <= s.len() {
                let node = if s[i] == '*' {
                    ExprV::Product(Box::new(acc), Box::new(b))
                } else if s[i] == '/' {
                    ExprV::Quotient(Box::new(acc), Box::new(b))
                } else {
                    ExprV::Remainder(Box::new(acc), Box::new(b))
                };
                p_product_tail(s, node, e)
            } else {
                None
            },
            None => None,
        }
    } else {
        Some((acc, i))
    }
}

/// Sums and differences, left-folded.
pub open spec fn p_sum(s: Seq<char>, i: int) -> Option<(ExprV, int)>
    decreases s.len() - i, 7nat,
    when 0 <= i <= s.len()
{
    match p_product(s, i) {
        Some((a, j)) => if i < j && j <= s.len() {
            p_sum_tail(s, a, j)
        } else {
            None
        },
        None => None,
    }
}

pub open spec fn p_sum_tail(s: Seq<char>, acc: ExprV, i: int) -> Option<(ExprV, int)>
    decreases s.len() - i, 8nat,
    when 0 <= i <= s.len()
{
    if i < s.len() && (s[i] == '+' || s[i] == '-') {
        match p_product(s, i + 1) {
            Some((b, e)) => if i + 1 <= e && e <= s.len() {
                let node = if s[i] == '+' {
                    ExprV::Sum(Box::new(acc), Box::new(b))
                } else {
                    ExprV::Difference(Box::new(acc), Box::new(b))
                };
                p_sum_tail(s, node, e)
            } else {
                None
            },
            None => None,
        }
    } else {
        Some((acc, i))
    }
}

/// Comparisons, left-folded.
pub open spec fn p_comparison(s: Seq<char>, i: int) -> Option<(ExprV, int)>
    decreases s.len() - i, 9nat,
    when 0 <= i <= s.len()
{
    match p_sum(s, i) {
        Some((a, j)) => if i < j && j <= s.len() {
            p_comparison_tail(s, a, j)
        } else {
            None
        },
        None => None,
    }
}

/// Which comparison operator stands at `i`, with its length.
pub open spec fn comparison_op_at(s: Seq<char>, i: int) -> Option<(int, int)> {
    if i + 1 < s.len() && s[i] == '=' && s[i + 1] == '=' {
        Some((0, 2))
    } else if i + 1 < s.len() && s[i] == '!' && s[i + 1] == '=' {
        Some((1, 2))
    } else if i < s.len() && s[i] == '<' {
        if i + 1 < s.len() && s[i + 1] == '=' {
            Some((3, 2))
        } else {
            Some((2, 1))
        }
    } else if i < s.len() && s[i] == '>' {
        if i + 1 < s.len() && s[i + 1] == '=' {
            Some((5, 2))
        } else {
            Some((4, 1))
        }
    } else {
        None
    }
}

pub open spec fn comparison_node(op: int, a: ExprV, b: ExprV) -> ExprV {
    if op == 0 {
        ExprV::Equal(Box::new(a), Box::new(b))
    } else if op == 1 {
        ExprV::NotEqual(Box::new(a), Box::new(b))
    } else if op == 2 {
        ExprV::LessThan(Box::new(a), Box::new(b))
    } else if op == 3 {
        ExprV::LessThanOrEqual(Box::new(a), Box::new(b))
    } else if op == 4 {
        ExprV::GreaterThan(Box::new(a), Box::new(b))
    } else {
        ExprV::GreaterThanOrEqual(Box::new(a), Box::new(b))
    }
}

pub open spec fn p_comparison_tail(s: Seq<char>, acc: ExprV, i: int) -> Option<(ExprV, int)>
    decreases s.len() - i, 10nat,
    when 0 <= i <= s.len()
{
    match comparison_op_at(s, i) {
        Some((op, w)) => match p_sum(s, i + w) {
            Some((b, e)) => if i + w <= e && e <= s.len() && 1 <= w {
                p_comparison_tail(s, comparison_node(op, acc, b), e)
            } else {
                None
            },
            None => None,
        },
        None => Some((acc, i)),
    }
}

/// Conjunctions, left-folded.
pub open spec fn p_conjunction(s: Seq<char>, i: int) -> Option<(ExprV, int)>
    decreases s.len() - i, 11nat,
    when 0 <= i <= s.len()
{
    match p_comparison(s, i) {
        Some((a, j)) => if i < j && j <= s.len() {
            p_conjunction_tail(s, a, j)
        } else {
            None
        },
        None => None,
    }
}

pub open spec fn p_conjunction_tail(s: Seq<char>, acc: ExprV, i: int) -> Option<(ExprV, int)>
    decreases s.len() - i, 12nat,
    when 0 <= i <= s.len()
{
    if i + 1 < s.len() && s[i] == '&' && s[i + 1] == '&' {
        match p_comparison(s, i + 2) {
            Some((b, e)) => if i + 2 <= e && e <= s.len() {
                p_conjunction_tail(s, ExprV::And(Box::new(acc), Box::new(b)), e)
            } else {
                None
            },
            None => None,
        }
    } else {
        Some((acc, i))
    }
}

/// Disjunctions, left-folded: the loosest level of the grammar.
pub open spec fn p_expr(s: Seq<char>, i: int) -> Option<(ExprV, int)>
    decreases s.len() - i, 13nat,
    when 0 <= i <= s.len()
{
    match p_conjunction(s, i) {
        Some((a, j)) => if i < j && j <= s.len() {
            p_expr_tail(s, a, j)
        } else {
            None
        },
        None => None,
    }
}

pub open spec fn p_expr_tail(s: Seq<char>, acc: ExprV, i: int) -> Option<(ExprV, int)>
    decreases s.len() - i, 14nat,
    when 0 <= i <= s.len()
{
    if i + 1 < s.len() && s[i] == '|' && s[i + 1] == '|' {
        match p_conjunction(s, i + 2) {
            Some((b, e)) => if i + 2 <= e && e <= s.len() {
                p_expr_tail(s, ExprV::Or(Box::new(acc), Box::new(b)), e)
            } else {
                None
            },
            None => None,
        }
    } else {
        Some((acc, i))
    }
}

/// The whole-input grammar: an expression that consumes every character.
pub open spec fn parse_v(s: Seq<char>) -> Option<ExprV> {
    match p_expr(s, 0) {
        Some((e, j)) => if j == s.len() {
            Some(e)
        } else {
            None
        },
        None => None,
    }
}


// ------------------------------------------------------------------
// The executable parser.
// ------------------------------------------------------------------

/// A parse failure: where it was noticed, what stood there (`None` at
/// end of input), what was expected, and — for an unclosed delimiter —
/// where the delimiter was opened.
#[derive(Debug)]
pub struct ParseError {
    pub position: usize,
    pub found: Option<char>,
    pub expected: Vec<String>,
    pub unclosed: Option<(usize, char)>,
}

fn is_ws_e(c: char) -> (r: bool)
    ensures
        r == is_ws(c),
{
    c == ' ' || c == '\t' || c == '\n' || c == '\r'
}

fn is_digit_e(c: char) -> (r: bool)
    ensures
        r == is_digit(c),
{
    '0' <= c && c <= '9'
}

fn is_ident_start_e(c: char) -> (r: bool)
    ensures
        r == is_ident_start(c),
{
    ('a' <= c && c <= 'z') || ('A' <= c && c <= 'Z') || c == '_'
}

fn is_ident_char_e(c: char) -> (r: bool)
    ensures
        r == is_ident_char(c),
{
    is_ident_start_e(c) || is_digit_e(c)
}

fn e_skip_ws(s: &str, i: usize) -> (j: usize)
    requires
        i <= s@.len(),
    ensures
        j as int == skip_ws(s@, i as int),
        i <= j <= s@.len(),
{
    let n = s.unicode_len();
    let mut j = i;
    while j < n && is_ws_e(s.get_char(j))
        invariant
            i <= j <= n,
            n == s@.len(),
            skip_ws(s@, i as int) == skip_ws(s@, j as int),
        decreases n - j,
    {
        j = j + 1;
    }
    j
}

fn e_scan_ident(s: &str, i: usize) -> (j: usize)
    requires
        i <= s@.len(),
    ensures
        j as int == scan_ident(s@, i as int),
        i <= j <= s@.len(),
{
    let n = s.unicode_len();
    let mut j = i;
    while j < n && is_ident_char_e(s.get_char(j))
        invariant
            i <= j <= n,
            n == s@.len(),
            scan_ident(s@, i as int) == scan_ident(s@, j as int),
        decreases n - j,
    {
        j = j + 1;
    }
    j
}

/// Scans the run of digits at `i` and accumulates its value.
fn e_digits_val(s: &str, i: usize) -> (r: (num::bigint::BigInt, usize))
    requires
        i <= s@.len(),
    ensures
        r.1 as int == scan_digits(s@, i as int),
        i <= r.1 <= s@.len(),
        crate::number::big_int_value(r.0) == dec_val(s@.subrange(i as int, r.1 as int)),
{
    let n = s.unicode_len();
    let mut j = i;
    let mut acc = crate::number::big_from_u64(0);
    let ten = crate::number::big_from_u64(10);
    proof {
        assert(s@.subrange(i as int, i as int) =~= Seq::empty());
    }
    while j < n && is_digit_e(s.get_char(j))
        invariant
            i <= j <= n,
            n == s@.len(),
            scan_digits(s@, i as int) == scan_digits(s@, j as int),
            crate::number::big_int_value(ten) == 10,
            crate::number::big_int_value(acc) == dec_val(s@.subrange(i as int, j as int)),
        decreases n - j,
    {
        let c = s.get_char(j);
        let d: u64 = (c as u32) as u64 - 48;
        let dv = crate::number::big_from_u64(d);
        let shifted = crate::number::big_mul(&acc, &ten);
        acc = crate::number::big_add(&shifted, &dv);
        proof {
            let pre = s@.subrange(i as int, j as int);
            let post = s@.subrange(i as int, j as int + 1);
            assert(post.drop_last() =~= pre);
            assert(post.last() == s@[j as int]);
            assert(d == digit_val(s@[j as int]));
        }
        j = j + 1;
    }
    (acc, j)
}

/// Parses the digit value at `i` as a value bounded by what the run of
/// digits shows; mirrors `p_number`.
fn e_number(s: &str, i: usize) -> (r: Option<(Expression, usize)>)
    requires
        i < s@.len(),
        is_digit(s@[i as int]),
    ensures
        match r {
            Some((v, j)) => p_number(s@, i as int) == Some((v@, j as int)) && wf_v(v@) && i < j
                <= s@.len(),
            None => p_number(s@, i as int) is None,
        },
{
    let n = s.unicode_len();
    let c0 = s.get_char(i);
    let (int_val, e) = if c0 == '0' {
        let one_digit = crate::number::big_from_u64(0);
        proof {
            assert(dec_val(Seq::<char>::empty()) == 0);
            assert(s@.subrange(i as int, i as int + 1).drop_last() =~= Seq::<char>::empty());
            assert(s@.subrange(i as int, i as int + 1).last() == s@[i as int]);
            assert(digit_val(s@[i as int]) == 0);
            assert(crate::number::big_int_value(one_digit) == dec_val(
                s@.subrange(i as int, i as int + 1),
            ));
        }
        (one_digit, i + 1)
    } else {
        let (v, e) = e_digits_val(s, i);
        (v, e)
    };
    let ghost spec_e: int = if s@[i as int] == '0' {
        i as int + 1
    } else {
        scan_digits(s@, i as int)
    };
    proof {
        assert(e as int == spec_e);
        assert(crate::number::big_int_value(int_val) == dec_val(
            s@.subrange(i as int, e as int),
        ));
        assert(i < e <= s@.len()) by {
            if s@[i as int] != '0' {
                lemma_scan_digits_le(s@, i as int + 1);
            }
        }
    }
    if e < n && e + 1 < n && s.get_char(e) == '.' && is_digit_e(s.get_char(e + 1)) {
        let (_, f0) = e_digits_val(s, e + 1);
        proof {
            lemma_scan_digits_le(s@, e as int + 2);
            assert(scan_digits(s@, e as int + 1) == scan_digits(s@, e as int + 2));
            assert(e + 1 < f0);
        }
        let mut numer = int_val;
        proof {
            assert(crate::number::big_int_value(numer) == dec_val(
                s@.subrange(i as int, e as int),
            ));
        }
        let ten = crate::number::big_from_u64(10);
        let mut j = e + 1;
        let ghost intpart = s@.subrange(i as int, e as int);
        proof {
            lemma_scan_digits_all(s@, e as int + 1);
            assert(intpart + s@.subrange(e as int + 1, e as int + 1) =~= intpart);
        }
        while j < f0
            invariant
                e + 1 <= j <= f0,
                f0 <= s@.len(),
                f0 as int == scan_digits(s@, e as int + 1),
                crate::number::big_int_value(ten) == 10,
                intpart == s@.subrange(i as int, e as int),
                i < e < s@.len(),
                forall|k: int| e + 1 <= k < f0 ==> is_digit(#[trigger] s@[k]),
                crate::number::big_int_value(numer) == dec_val(
                    intpart + s@.subrange(e as int + 1, j as int),
                ),
            decreases f0 - j,
        {
            let c = s.get_char(j);
            let d: u64 = (c as u32) as u64 - 48;
            let dv = crate::number::big_from_u64(d);
            let shifted = crate::number::big_mul(&numer, &ten);
            numer = crate::number::big_add(&shifted, &dv);
            proof {
                let pre = intpart + s@.subrange(e as int + 1, j as int);
                let post = intpart + s@.subrange(e as int + 1, j as int + 1);
                assert(post.drop_last() =~= pre);
                assert(post.last() == s@[j as int]);
                assert(is_digit(s@[j as int]));
                assert(d == digit_val(s@[j as int]));
            }
            j = j + 1;
        }
        let fraclen = f0 - (e + 1);
        let denom = crate::number::big_mul_pow(
            &crate::number::big_from_u64(1),
            &ten,
            fraclen,
        );
        proof {
            vstd::arithmetic::power::lemma_pow_positive(10, fraclen as nat);
            crate::number::lemma_norm_rat(
                crate::number::big_int_value(numer),
                crate::number::big_int_value(denom),
            );
        }
        let x = crate::number::rat_new(numer, denom);
        Some(
            (
                Expression::Rational(x, crate::expression::RationalRepresentation::Decimal),
                f0,
            ),
        )
    } else {
        Some((Expression::Integer(int_val), e))
    }
}

/// Checks whether the digit runs at `i` form a scan-digit prefix; the
/// forall over digits backs the fractional loop above.
proof fn lemma_scan_digits_all(s: Seq<char>, i: int)
    requires
        0 <= i <= s.len(),
    ensures
        forall|k: int| i <= k < scan_digits(s, i) ==> is_digit(#[trigger] s[k]),
        scan_digits(s, i) <= s.len(),
    decreases s.len() - i,
{
    if i < s.len() && is_digit(s[i]) {
        lemma_scan_digits_all(s, i + 1);
    }
}

fn e_identifier(s: &str, i: usize) -> (r: Option<(Expression, usize)>)
    requires
        i < s@.len(),
        is_ident_start(s@[i as int]),
    ensures
        match r {
            Some((v, j)) => p_identifier(s@, i as int) == Some((v@, j as int)) && wf_v(v@) && i
                < j <= s@.len(),
            None => p_identifier(s@, i as int) is None,
        },
{
    let e = e_scan_ident(s, i);
    proof {
        lemma_scan_ident_all(s@, i as int);
    }
    let name_slice = s.substring_char(i, e);
    let name = name_slice.to_owned();
    let t: String = "true".to_owned();
    let f: String = "false".to_owned();
    if name.eq(&t) {
        Some((Expression::Boolean(true), e))
    } else if name.eq(&f) {
        Some((Expression::Boolean(false), e))
    } else {
        Some((Expression::Variable(name), e))
    }
}

proof fn lemma_scan_ident_all(s: Seq<char>, i: int)
    requires
        0 <= i <= s.len(),
    ensures
        i < s.len() && is_ident_char(s[i]) ==> scan_ident(s, i) > i,
{
    if i < s.len() && is_ident_char(s[i]) {
        lemma_scan_ident_le(s, i + 1);
    }
}


pub proof fn lemma_expr_v_seq_snoc(a: Seq<Expression>, x: Expression)
    ensures
        expr_v_seq(a.push(x)) == expr_v_seq(a).push(crate::expression::expr_v(x)),
    decreases a,
{
    if a.len() == 0 {
        assert(expr_v_seq(Seq::<Expression>::empty()) =~= Seq::<ExprV>::empty());
        assert(a.push(x).drop_first() =~= Seq::<Expression>::empty());
        assert(a =~= Seq::<Expression>::empty());
        assert(a.push(x)[0] == x);
        assert(expr_v_seq(a.push(x)) =~= expr_v_seq(a).push(crate::expression::expr_v(x)));
    } else {
        assert(a.push(x).drop_first() =~= a.drop_first().push(x));
        assert(a.push(x)[0] == a[0]);
        lemma_expr_v_seq_snoc(a.drop_first(), x);
        assert(expr_v_seq(a.push(x)) =~= expr_v_seq(a).push(crate::expression::expr_v(x)));
    }
}

/// Applies the vector-or-matrix reinterpretation to a parsed element list.
fn to_vec_or_matrix(elems: Vec<Expression>) -> (r: Expression)
    requires
        wf_v_seq(expr_v_seq(elems@)),
    ensures
        r@ == vec_or_matrix(expr_v_seq(elems@)),
        wf_v(r@),
{
    let ghost ev = expr_v_seq(elems@);
    proof {
        crate::expression::lemma_expr_v_seq_len(elems@);
    }
    if elems.len() == 0 {
        return Expression::Vector(elems);
    }
    let row_size: usize = match &elems[0] {
        Expression::Vector(v0) => {
            proof {
                crate::expression::lemma_expr_v_seq_index(elems@, 0);
                crate::expression::lemma_expr_v_seq_len(v0@);
            }
            v0.len()
        },
        _ => {
            proof {
                crate::expression::lemma_expr_v_seq_index(elems@, 0);
            }
            return Expression::Vector(elems);
        },
    };
    let mut all = true;
    let mut k: usize = 1;
    while k < elems.len() && all
        invariant
            1 <= k <= elems@.len(),
            ev == expr_v_seq(elems@),
            ev.len() == elems@.len(),
            elems@.len() >= 1,
            ev[0] is Vector && ev[0]->Vector_0.len() == row_size,
            all ==> forall|j: int| 0 <= j < k ==> (#[trigger] ev[j]) is Vector
                && ev[j]->Vector_0.len() == row_size,
            !all ==> !(forall|j: int| 0 <= j < ev.len() ==> (#[trigger] ev[j]) is Vector
                && ev[j]->Vector_0.len() == ev[0]->Vector_0.len()),
        decreases elems@.len() - k,
    {
        proof {
            crate::expression::lemma_expr_v_seq_index(elems@, k as int);
        }
        match &elems[k] {
            Expression::Vector(v) => {
                proof {
                    crate::expression::lemma_expr_v_seq_len(v@);
                }
                if v.len() != row_size {
                    all = false;
                }
            },
            _ => {
                all = false;
            },
        }
        k = k + 1;
    }
    if !all {
        return Expression::Vector(elems);
    }
    proof {
        assert(k == elems@.len());
        assert(forall|j: int| 0 <= j < ev.len() ==> (#[trigger] ev[j]) is Vector
            && ev[j]->Vector_0.len() == ev[0]->Vector_0.len());
    }
    let nrows = elems.len();
    let mut rest = elems;
    let mut rows: Vec<Vec<Expression>> = Vec::new();
    let ghost n = ev.len();
    while rest.len() > 0
        invariant
            rows@.len() + rest@.len() == n,
            ev.len() == n,
            forall|j: int| 0 <= j < rest@.len() ==> rest@[j] == elems@[rows@.len() + j],
            ev == expr_v_seq(elems@),
            elems@.len() == n,
            forall|j: int| 0 <= j < n ==> (#[trigger] ev[j]) is Vector,
            forall|j: int| 0 <= j < rows@.len() ==> expr_v_seq(
                (#[trigger] rows@[j])@,
            ) == ev[j]->Vector_0,
        decreases rest@.len(),
    {
        let ghost done = rows@.len() as int;
        let ex = rest.remove(0);
        proof {
            assert(ex == elems@[done]);
            crate::expression::lemma_expr_v_seq_index(elems@, done);
        }
        match ex {
            Expression::Vector(v) => {
                rows.push(v);
            },
            _ => {
                proof {
                    assert(false);
                }
            },
        }
    }
    let m = crate::expression::Matrix { nrows, ncols: row_size, entries: rows };
    let result = Expression::Matrix(m);
    proof {
        let grid = crate::expression::expr_v_rows(rows@);
        let want = Seq::new(n, |j: int| ev[j]->Vector_0);
        crate::expression::lemma_expr_v_rows_len(rows@);
        assert forall|j: int| 0 <= j < n implies #[trigger] grid[j] == want[j] by {
            crate::expression::lemma_expr_v_rows_index(rows@, j);
        }
        assert(grid =~= want);
        assert(result@ == vec_or_matrix(ev));
        // Well-formedness: every row's elements are well-formed.
        crate::expression::lemma_wf_v_grid_iff(grid);
        assert forall|j: int| 0 <= j < n implies crate::expression::wf_v_seq(
            #[trigger] grid[j],
        ) by {
            crate::expression::lemma_wf_v_seq_index(ev, j);
        }
    }
    result
}

#[verifier::rlimit(60)]
#[verifier::spinoff_prover]
fn e_bracket_list(s: &str, i: usize) -> (r: Option<(Vec<Expression>, usize)>)
    requires
        i <= s@.len(),
    ensures
        match r {
            Some((elems, j)) => p_bracket_list(s@, i as int) == Some(
                (expr_v_seq(elems@), j as int),
            ) && wf_v_seq(expr_v_seq(elems@)) && i < j <= s@.len(),
            None => p_bracket_list(s@, i as int) is None,
        },
    decreases s@.len() - i, 14nat,
{
    let n = s.unicode_len();
    let j = e_skip_ws(s, i);
    if j < n && s.get_char(j) == ']' {
        let empty: Vec<Expression> = Vec::new();
        proof {
            assert(expr_v_seq(empty@) =~= Seq::<ExprV>::empty());
        }
        Some((empty, j + 1))
    } else {
        match e_expr(s, j) {
            Some((v, e)) => {
                if i < e {
                    let mut acc: Vec<Expression> = Vec::new();
                    acc.push(v);
                    proof {
                        assert(expr_v_seq(Seq::<Expression>::empty()) =~= Seq::<ExprV>::empty());
                        assert(acc@.drop_first() =~= Seq::<Expression>::empty());
                        assert(expr_v_seq(acc@) =~= seq![acc@[0]@]);
                        assert(wf_v_seq(Seq::<ExprV>::empty()));
                        assert(expr_v_seq(acc@).drop_first() =~= Seq::<ExprV>::empty());
                        assert(wf_v_seq(expr_v_seq(acc@)));
                    }
                    e_list_tail(s, acc, e, ']')
                } else {
                    None
                }
            },
            None => None,
        }
    }
}

#[verifier::rlimit(60)]
#[verifier::spinoff_prover]
fn e_list_tail(s: &str, acc: Vec<Expression>, i: usize, close: char) -> (r: Option<
    (Vec<Expression>, usize),
>)
    requires
        i <= s@.len(),
        wf_v_seq(expr_v_seq(acc@)),
    ensures
        match r {
            Some((elems, j)) => p_list_tail(s@, expr_v_seq(acc@), i as int, close) == Some(
                (expr_v_seq(elems@), j as int),
            ) && wf_v_seq(expr_v_seq(elems@)) && i < j <= s@.len(),
            None => p_list_tail(s@, expr_v_seq(acc@), i as int, close) is None,
        },
    decreases s@.len() - i, 15nat,
{
    let n = s.unicode_len();
    if i < n && s.get_char(i) == close {
        Some((acc, i + 1))
    } else if i < n && s.get_char(i) == ',' {
        match e_expr(s, i + 1) {
            Some((v, e)) => {
                let ghost accv = expr_v_seq(acc@);
                let mut acc2 = acc;
                proof {
                    lemma_expr_v_seq_snoc(acc2@, v);
                    crate::expression::lemma_wf_v_seq_iff(accv);
                    crate::expression::lemma_wf_v_seq_iff(accv.push(v@));
                }
                acc2.push(v);
                e_list_tail(s, acc2, e, close)
            },
            None => None,
        }
    } else {
        None
    }
}

#[verifier::rlimit(60)]
#[verifier::spinoff_prover]
fn e_arg_list(s: &str, i: usize) -> (r: Option<(Vec<Expression>, usize)>)
    requires
        i <= s@.len(),
    ensures
        match r {
            Some((elems, j)) => p_arg_list(s@, i as int) == Some(
                (expr_v_seq(elems@), j as int),
            ) && wf_v_seq(expr_v_seq(elems@)) && i < j <= s@.len(),
            None => p_arg_list(s@, i as int) is None,
        },
    decreases s@.len() - i, 14nat,
{
    let n = s.unicode_len();
    let j = e_skip_ws(s, i);
    if j < n && s.get_char(j) == ')' {
        let empty: Vec<Expression> = Vec::new();
        proof {
            assert(expr_v_seq(empty@) =~= Seq::<ExprV>::empty());
        }
        Some((empty, j + 1))
    } else {
        match e_expr(s, j) {
            Some((v, e)) => {
                if i < e {
                    let mut acc: Vec<Expression> = Vec::new();
                    acc.push(v);
                    proof {
                        assert(expr_v_seq(Seq::<Expression>::empty()) =~= Seq::<ExprV>::empty());
                        assert(acc@.drop_first() =~= Seq::<Expression>::empty());
                        assert(expr_v_seq(acc@) =~= seq![acc@[0]@]);
                        assert(wf_v_seq(Seq::<ExprV>::empty()));
                        assert(expr_v_seq(acc@).drop_first() =~= Seq::<ExprV>::empty());
                        assert(wf_v_seq(expr_v_seq(acc@)));
                    }
                    e_list_tail(s, acc, e, ')')
                } else {
                    None
                }
            },
            None => None,
        }
    }
}

#[verifier::rlimit(60)]
#[verifier::spinoff_prover]
fn e_atom(s: &str, i: usize) -> (r: Option<(Expression, usize)>)
    requires
        i <= s@.len(),
    ensures
        match r {
            Some((v, j)) => p_atom(s@, i as int) == Some((v@, j as int)) && wf_v(v@) && i < j
                <= s@.len(),
            None => p_atom(s@, i as int) is None,
        },
    decreases s@.len() - i, 1nat,
{
    let n = s.unicode_len();
    let j = e_skip_ws(s, i);
    if j < n && is_ident_start_e(s.get_char(j)) {
        match e_identifier(s, j) {
            Some((v, e)) => Some((v, e_skip_ws(s, e))),
            None => None,
        }
    } else if j < n && is_digit_e(s.get_char(j)) {
        match e_number(s, j) {
            Some((v, e)) => Some((v, e_skip_ws(s, e))),
            None => None,
        }
    } else if j < n && s.get_char(j) == '[' {
        match e_bracket_list(s, j + 1) {
            Some((elems, e)) => {
                if j < e {
                    Some((to_vec_or_matrix(elems), e_skip_ws(s, e)))
                } else {
                    None
                }
            },
            None => None,
        }
    } else if j < n && s.get_char(j) == '(' {
        match e_expr(s, j + 1) {
            Some((v, e)) => {
                if e < n && s.get_char(e) == ')' {
                    Some((v, e_skip_ws(s, e + 1)))
                } else {
                    None
                }
            },
            None => None,
        }
    } else {
        None
    }
}

#[verifier::rlimit(60)]
#[verifier::spinoff_prover]
fn e_call(s: &str, i: usize) -> (r: Option<(Expression, usize)>)
    requires
        i <= s@.len(),
    ensures
        match r {
            Some((v, j)) => p_call(s@, i as int) == Some((v@, j as int)) && wf_v(v@) && i < j
                <= s@.len(),
            None => p_call(s@, i as int) is None,
        },
    decreases s@.len() - i, 2nat,
{
    let n = s.unicode_len();
    match e_atom(s, i) {
        Some((f, j)) => {
            if j < n && s.get_char(j) == '(' {
                match e_arg_list(s, j + 1) {
                    Some((args, e)) => {
                        let result = Expression::Function(Box::new(f), args);
                        Some((result, e_skip_ws(s, e)))
                    },
                    None => None,
                }
            } else {
                Some((f, j))
            }
        },
        None => None,
    }
}

#[verifier::rlimit(60)]
#[verifier::spinoff_prover]
fn e_power(s: &str, i: usize) -> (r: Option<(Expression, usize)>)
    requires
        i <= s@.len(),
    ensures
        match r {
            Some((v, j)) => p_power(s@, i as int) == Some((v@, j as int)) && wf_v(v@) && i < j
                <= s@.len(),
            None => p_power(s@, i as int) is None,
        },
    decreases s@.len() - i, 3nat,
{
    let n = s.unicode_len();
    match e_call(s, i) {
        Some((a, j)) => {
            if j < n && s.get_char(j) == '^' {
                match e_power(s, j + 1) {
                    Some((b, e)) => Some(
                        (Expression::Power(Box::new(a), Box::new(b)), e),
                    ),
                    None => None,
                }
            } else {
                Some((a, j))
            }
        },
        None => None,
    }
}

#[verifier::rlimit(60)]
#[verifier::spinoff_prover]
fn e_negation(s: &str, i: usize) -> (r: Option<(Expression, usize)>)
    requires
        i <= s@.len(),
    ensures
        match r {
            Some((v, j)) => p_negation(s@, i as int) == Some((v@, j as int)) && wf_v(v@) && i
                < j <= s@.len(),
            None => p_negation(s@, i as int) is None,
        },
    decreases s@.len() - i, 4nat,
{
    let n = s.unicode_len();
    let j = e_skip_ws(s, i);
    if j < n && s.get_char(j) == '-' {
        match e_power(s, j + 1) {
            Some((a, e)) => Some((Expression::Negation(Box::new(a)), e)),
            None => None,
        }
    } else if j < n && s.get_char(j) == '!' && !(j < n && j + 1 < n && s.get_char(j + 1) == '=') {
        match e_power(s, j + 1) {
            Some((a, e)) => Some((Expression::Not(Box::new(a)), e)),
            None => None,
        }
    } else {
        e_power(s, i)
    }
}

#[verifier::rlimit(60)]
#[verifier::spinoff_prover]
fn e_product(s: &str, i: usize) -> (r: Option<(Expression, usize)>)
    requires
        i <= s@.len(),
    ensures
        match r {
            Some((v, j)) => p_product(s@, i as int) == Some((v@, j as int)) && wf_v(v@) && i
                < j <= s@.len(),
            None => p_product(s@, i as int) is None,
        },
    decreases s@.len() - i, 5nat,
{
    match e_negation(s, i) {
        Some((a, j)) => e_product_tail(s, a, j),
        None => None,
    }
}

#[verifier::rlimit(60)]
#[verifier::spinoff_prover]
fn e_product_tail(s: &str, acc: Expression, i: usize) -> (r: Option<(Expression, usize)>)
    requires
        i <= s@.len(),
        wf_v(acc@),
    ensures
        match r {
            Some((v, j)) => p_product_tail(s@, acc@, i as int) == Some((v@, j as int)) && wf_v(
                v@,
            ) && i <= j <= s@.len(),
            None => p_product_tail(s@, acc@, i as int) is None,
        },
    decreases s@.len() - i, 6nat,
{
    let n = s.unicode_len();
    if i < n && (s.get_char(i) == '*' || s.get_char(i) == '/' || s.get_char(i) == '%') {
        let c = s.get_char(i);
        match e_negation(s, i + 1) {
            Some((b, e)) => {
                let node = if c == '*' {
                    Expression::Product(Box::new(acc), Box::new(b))
                } else if c == '/' {
                    Expression::Quotient(Box::new(acc), Box::new(b))
                } else {
                    Expression::Remainder(Box::new(acc), Box::new(b))
                };
                e_product_tail(s, node, e)
            },
            None => None,
        }
    } else {
        Some((acc, i))
    }
}

#[verifier::rlimit(60)]
#[verifier::spinoff_prover]
fn e_sum(s: &str, i: usize) -> (r: Option<(Expression, usize)>)
    requires
        i <= s@.len(),
    ensures
        match r {
            Some((v, j)) => p_sum(s@, i as int) == Some((v@, j as int)) && wf_v(v@) && i < j
                <= s@.len(),
            None => p_sum(s@, i as int) is None,
        },
    decreases s@.len() - i, 7nat,
{
    match e_product(s, i) {
        Some((a, j)) => e_sum_tail(s, a, j),
        None => None,
    }
}

#[verifier::rlimit(60)]
#[verifier::spinoff_prover]
fn e_sum_tail(s: &str, acc: Expression, i: usize) -> (r: Option<(Expression, usize)>)
    requires
        i <= s@.len(),
        wf_v(acc@),
    ensures
        match r {
            Some((v, j)) => p_sum_tail(s@, acc@, i as int) == Some((v@, j as int)) && wf_v(v@)
                && i <= j <= s@.len(),
            None => p_sum_tail(s@, acc@, i as int) is None,
        },
    decreases s@.len() - i, 8nat,
{
    let n = s.unicode_len();
    if i < n && (s.get_char(i) == '+' || s.get_char(i) == '-') {
        let c = s.get_char(i);
        match e_product(s, i + 1) {
            Some((b, e)) => {
                let node = if c == '+' {
                    Expression::Sum(Box::new(acc), Box::new(b))
                } else {
                    Expression::Difference(Box::new(acc), Box::new(b))
                };
                e_sum_tail(s, node, e)
            },
            None => None,
        }
    } else {
        Some((acc, i))
    }
}

fn e_comparison_op(s: &str, i: usize) -> (r: Option<(usize, usize)>)
    requires
        i <= s@.len(),
    ensures
        match r {
            Some((op, w)) => comparison_op_at(s@, i as int) == Some((op as int, w as int)) && 1
                <= w <= 2 && op < 6 && i + w <= s@.len(),
            None => comparison_op_at(s@, i as int) is None,
        },
{
    let n = s.unicode_len();
    if i < n && i + 1 < n && s.get_char(i) == '=' && s.get_char(i + 1) == '=' {
        Some((0, 2))
    } else if i < n && i + 1 < n && s.get_char(i) == '!' && s.get_char(i + 1) == '=' {
        Some((1, 2))
    } else if i < n && s.get_char(i) == '<' {
        if i + 1 < n && s.get_char(i + 1) == '=' {
            Some((3, 2))
        } else {
            Some((2, 1))
        }
    } else if i < n && s.get_char(i) == '>' {
        if i + 1 < n && s.get_char(i + 1) == '=' {
            Some((5, 2))
        } else {
            Some((4, 1))
        }
    } else {
        None
    }
}

#[verifier::rlimit(60)]
#[verifier::spinoff_prover]
fn e_comparison(s: &str, i: usize) -> (r: Option<(Expression, usize)>)
    requires
        i <= s@.len(),
    ensures
        match r {
            Some((v, j)) => p_comparison(s@, i as int) == Some((v@, j as int)) && wf_v(v@) && i
                < j <= s@.len(),
            None => p_comparison(s@, i as int) is None,
        },
    decreases s@.len() - i, 9nat,
{
    match e_sum(s, i) {
        Some((a, j)) => e_comparison_tail(s, a, j),
        None => None,
    }
}

#[verifier::rlimit(60)]
#[verifier::spinoff_prover]
fn e_comparison_tail(s: &str, acc: Expression, i: usize) -> (r: Option<(Expression, usize)>)
    requires
        i <= s@.len(),
        wf_v(acc@),
    ensures
        match r {
            Some((v, j)) => p_comparison_tail(s@, acc@, i as int) == Some((v@, j as int))
                && wf_v(v@) && i <= j <= s@.len(),
            None => p_comparison_tail(s@, acc@, i as int) is None,
        },
    decreases s@.len() - i, 10nat,
{
    let n = s.unicode_len();
    match e_comparison_op(s, i) {
        Some((op, w)) => {
            match e_sum(s, i + w) {
                Some((b, e)) => {
                    let node = if op == 0 {
                        Expression::Equal(Box::new(acc), Box::new(b))
                    } else if op == 1 {
                        Expression::NotEqual(Box::new(acc), Box::new(b))
                    } else if op == 2 {
                        Expression::LessThan(Box::new(acc), Box::new(b))
                    } else if op == 3 {
                        Expression::LessThanOrEqual(Box::new(acc), Box::new(b))
                    } else if op == 4 {
                        Expression::GreaterThan(Box::new(acc), Box::new(b))
                    } else {
                        Expression::GreaterThanOrEqual(Box::new(acc), Box::new(b))
                    };
                    e_comparison_tail(s, node, e)
                },
                None => None,
            }
        },
        None => Some((acc, i)),
    }
}

#[verifier::rlimit(60)]
#[verifier::spinoff_prover]
fn e_conjunction(s: &str, i: usize) -> (r: Option<(Expression, usize)>)
    requires
        i <= s@.len(),
    ensures
        match r {
            Some((v, j)) => p_conjunction(s@, i as int) == Some((v@, j as int)) && wf_v(v@)
                && i < j <= s@.len(),
            None => p_conjunction(s@, i as int) is None,
        },
    decreases s@.len() - i, 11nat,
{
    match e_comparison(s, i) {
        Some((a, j)) => e_conjunction_tail(s, a, j),
        None => None,
    }
}

#[verifier::rlimit(60)]
#[verifier::spinoff_prover]
fn e_conjunction_tail(s: &str, acc: Expression, i: usize) -> (r: Option<(Expression, usize)>)
    requires
        i <= s@.len(),
        wf_v(acc@),
    ensures
        match r {
            Some((v, j)) => p_conjunction_tail(s@, acc@, i as int) == Some((v@, j as int))
                && wf_v(v@) && i <= j <= s@.len(),
            None => p_conjunction_tail(s@, acc@, i as int) is None,
        },
    decreases s@.len() - i, 12nat,
{
    let n = s.unicode_len();
    if i < n && i + 1 < n && s.get_char(i) == '&' && s.get_char(i + 1) == '&' {
        match e_comparison(s, i + 2) {
            Some((b, e)) => e_conjunction_tail(
                s,
                Expression::And(Box::new(acc), Box::new(b)),
                e,
            ),
            None => None,
        }
    } else {
        Some((acc, i))
    }
}

#[verifier::rlimit(60)]
#[verifier::spinoff_prover]
fn e_expr(s: &str, i: usize) -> (r: Option<(Expression, usize)>)
    requires
        i <= s@.len(),
    ensures
        match r {
            Some((v, j)) => p_expr(s@, i as int) == Some((v@, j as int)) && wf_v(v@) && i < j
                <= s@.len(),
            None => p_expr(s@, i as int) is None,
        },
    decreases s@.len() - i, 13nat,
{
    match e_conjunction(s, i) {
        Some((a, j)) => e_expr_tail(s, a, j),
        None => None,
    }
}

#[verifier::rlimit(60)]
#[verifier::spinoff_prover]
fn e_expr_tail(s: &str, acc: Expression, i: usize) -> (r: Option<(Expression, usize)>)
    requires
        i <= s@.len(),
        wf_v(acc@),
    ensures
        match r {
            Some((v, j)) => p_expr_tail(s@, acc@, i as int) == Some((v@, j as int)) && wf_v(v@)
                && i <= j <= s@.len(),
            None => p_expr_tail(s@, acc@, i as int) is None,
        },
    decreases s@.len() - i, 14nat,
{
    let n = s.unicode_len();
    if i < n && i + 1 < n && s.get_char(i) == '|' && s.get_char(i + 1) == '|' {
        match e_conjunction(s, i + 2) {
            Some((b, e)) => e_expr_tail(s, Expression::Or(Box::new(acc), Box::new(b)), e),
            None => None,
        }
    } else {
        Some((acc, i))
    }
}

/// The innermost bracket or parenthesis that is opened at or after `i`
/// and never closed, on top of the already-open `stack`.
pub open spec fn unclosed_from(s: Seq<char>, i: int, stack: Seq<(int, char)>) -> Option<
    (int, char),
>
    decreases s.len() - i,
    when 0 <= i <= s.len()
{
    if i >= s.len() {
        if stack.len() == 0 {
            None
        } else {
            Some(stack.last())
        }
    } else if s[i] == '(' || s[i] == '[' {
        unclosed_from(s, i + 1, stack.push((i, s[i])))
    } else if s[i] == ')' || s[i] == ']' {
        if stack.len() > 0 {
            unclosed_from(s, i + 1, stack.drop_last())
        } else {
            unclosed_from(s, i + 1, stack)
        }
    } else {
        unclosed_from(s, i + 1, stack)
    }
}

/// The innermost delimiter of the text that is opened and never closed.
pub open spec fn unclosed_delimiter(s: Seq<char>) -> Option<(int, char)> {
    unclosed_from(s, 0, Seq::empty())
}

/// Scans for a bracket or parenthesis that is opened and never closed,
/// returning the position and character of the innermost one.
fn find_unclosed(s: &str) -> (r: Option<(usize, char)>)
    ensures
        match r {
            Some((p, c)) => unclosed_delimiter(s@) == Some((p as int, c)) && p < s@.len(),
            None => unclosed_delimiter(s@) is None,
        },
{
    let n = s.unicode_len();
    let mut stack: Vec<(usize, char)> = Vec::new();
    let mut i: usize = 0;
    proof {
        assert(stack@.map_values(|p: (usize, char)| (p.0 as int, p.1)) =~= Seq::<
            (int, char),
        >::empty());
    }
    while i < n
        invariant
            0 <= i <= n,
            n == s@.len(),
            forall|k: int| 0 <= k < stack@.len() ==> (#[trigger] stack@[k]).0 < s@.len(),
            unclosed_delimiter(s@) == unclosed_from(
                s@,
                i as int,
                stack@.map_values(|p: (usize, char)| (p.0 as int, p.1)),
            ),
        decreases n - i,
    {
        let ghost sv = stack@.map_values(|p: (usize, char)| (p.0 as int, p.1));
        let c = s.get_char(i);
        if c == '(' || c == '[' {
            stack.push((i, c));
            proof {
                assert(stack@.map_values(|p: (usize, char)| (p.0 as int, p.1)) =~= sv.push(
                    (i as int, c),
                ));
            }
        } else if c == ')' || c == ']' {
            if stack.len() > 0 {
                let _ = stack.pop();
                proof {
                    assert(stack@.map_values(|p: (usize, char)| (p.0 as int, p.1))
                        =~= sv.drop_last());
                }
            }
        }
        i = i + 1;
    }
    if stack.len() > 0 {
        let top = stack[stack.len() - 1];
        proof {
            let sv = stack@.map_values(|p: (usize, char)| (p.0 as int, p.1));
            assert(sv.last() == (top.0 as int, top.1));
        }
        Some(top)
    } else {
        proof {
            assert(stack@.map_values(|p: (usize, char)| (p.0 as int, p.1)) =~= Seq::<
                (int, char),
            >::empty());
        }
        None
    }
}

/// Parses an entire input string into an expression.
///
/// Succeeds exactly when the whole-input grammar `parse_v` accepts the
/// text, and then returns exactly the tree it describes, always
/// well-formed.  On failure, one error is reported, in one of two
/// forms, and the contract says which: where a prefix parses but input
/// is left over, the error points at the first leftover character;
/// where the grammar rejects outright — which covers every incomplete
/// input — the error carries no found character and stands at the end
/// of the input, with the innermost unclosed delimiter's opening
/// position when one exists.  Callers tell "still typing" from
/// "malformed" by `found`.
pub fn parse(input: &str) -> (r: Result<Expression, Vec<ParseError>>)
    ensures
        match r {
            Ok(e) => parse_v(input@) == Some(e@) && wf_v(e@),
            Err(errs) => {
                &&& parse_v(input@) is None
                &&& errs@.len() == 1
                &&& match p_expr(input@, 0) {
                    Some((_, j)) => errs@[0].position == j && j < input@.len()
                        && errs@[0].found == Some(input@[j]) && errs@[0].unclosed is None,
                    None => errs@[0].position == input@.len() && errs@[0].found is None
                        && errs@[0].unclosed == (match unclosed_delimiter(input@) {
                        Some((p, c)) => Some((p as usize, c)),
                        None => None::<(usize, char)>,
                    }),
                }
            },
        },
{
    let n = input.unicode_len();
    match e_expr(input, 0) {
        Some((e, j)) => {
            if j == n {
                Ok(e)
            } else {
                let mut expected: Vec<String> = Vec::new();
                expected.push("end of input".to_owned());
                let err = ParseError {
                    position: j,
                    found: Some(input.get_char(j)),
                    expected,
                    unclosed: None,
                };
                let mut errs: Vec<ParseError> = Vec::new();
                errs.push(err);
                Err(errs)
            }
        },
        None => {
            let mut expected: Vec<String> = Vec::new();
            expected.push("expression".to_owned());
            let err = ParseError {
                position: n,
                found: None,
                expected,
                unclosed: find_unclosed(input),
            };
            let mut errs: Vec<ParseError> = Vec::new();
            errs.push(err);
            Err(errs)
        },
    }
}

} // verus!
