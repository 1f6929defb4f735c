//! The exact numeric tower: arbitrary-precision integers and rationals,
//! held by the `num` crate's `BigInt` and `Ratio` types, and complex
//! numbers built from two rationals.
//!
//! The mathematical value of a `BigInt` is named by `big_int_value`, and
//! the value of a `Ratio` by its `ratio_numer` / `ratio_denom` pair.  Every
//! operation of the outside crate that the engine uses is wrapped in a
//! function whose contract states the result over those names; rational
//! results are pinned exactly through `norm_rat`, the lowest-terms normal
//! form that `Ratio` maintains.

use vstd::prelude::*;
use vstd::arithmetic::div_mod::{
    lemma_fundamental_div_mod, lemma_fundamental_div_mod_converse,
};

verus! {

/// Arbitrary-precision rational number, kept in lowest terms with a
/// positive denominator by the `num` crate.
pub type Rational = num::rational::Ratio<num::bigint::BigInt>;

#[verifier::external_type_specification]
#[verifier::external_body]
pub struct ExBigInt(num::bigint::BigInt);

#[verifier::external_type_specification]
#[verifier::external_body]
#[verifier::reject_recursive_types(T)]
pub struct ExRatio<T>(num::rational::Ratio<T>);

/// The integer a `BigInt` stands for.
pub uninterp spec fn big_int_value(b: num::bigint::BigInt) -> int;

/// The numerator a `Ratio` of `BigInt` holds.
pub uninterp spec fn ratio_numer(x: num::rational::Ratio<num::bigint::BigInt>) -> int;

/// The denominator a `Ratio` of `BigInt` holds.
pub uninterp spec fn ratio_denom(x: num::rational::Ratio<num::bigint::BigInt>) -> int;

/// A rational number as a pair of mathematical integers, `n / d`.
pub struct RatV {
    pub n: int,
    pub d: int,
}

/// A complex number with rational real and imaginary parts.
pub struct ComplexV {
    pub re: RatV,
    pub im: RatV,
}

pub open spec fn rat_v(x: Rational) -> RatV {
    RatV { n: ratio_numer(x), d: ratio_denom(x) }
}

/// A well-formed rational pair has a positive denominator.
pub open spec fn rat_v_wf(a: RatV) -> bool {
    a.d > 0
}

pub open spec fn int_abs(x: int) -> nat {
    if x < 0 {
        (-x) as nat
    } else {
        x as nat
    }
}

/// Euclid's greatest common divisor.
pub open spec fn gcd_nat(a: nat, b: nat) -> nat
    decreases b,
{
    if b == 0 {
        a
    } else {
        gcd_nat(b, a % b)
    }
}

/// The lowest-terms normal form of the fraction `n / d` (for `d != 0`):
/// the sign moves to the numerator and both parts are divided by their
/// greatest common divisor; zero is `0 / 1`.  This is the form in which
/// the `num` crate keeps every `Ratio`.
pub open spec fn norm_rat(n: int, d: int) -> RatV {
    let n1: int = if d < 0 { -n } else { n };
    let d1: int = if d < 0 { -d } else { d };
    if n1 == 0 {
        RatV { n: 0, d: 1 }
    } else {
        let g = gcd_nat(int_abs(n1), int_abs(d1)) as int;
        RatV { n: n1 / g, d: d1 / g }
    }
}

pub open spec fn rat_add_v(a: RatV, b: RatV) -> RatV {
    norm_rat(a.n * b.d + b.n * a.d, a.d * b.d)
}

pub open spec fn rat_sub_v(a: RatV, b: RatV) -> RatV {
    norm_rat(a.n * b.d - b.n * a.d, a.d * b.d)
}

pub open spec fn rat_mul_v(a: RatV, b: RatV) -> RatV {
    norm_rat(a.n * b.n, a.d * b.d)
}

pub open spec fn rat_div_v(a: RatV, b: RatV) -> RatV {
    norm_rat(a.n * b.d, a.d * b.n)
}

pub open spec fn rat_neg_v(a: RatV) -> RatV {
    RatV { n: -a.n, d: a.d }
}

/// num::bigint::BigInt division truncated towards zero, as the `%` of the engine's
/// remainder semantics rounds.
pub open spec fn tdiv_int(x: int, y: int) -> int {
    if (x < 0) == (y < 0) {
        int_abs(x) as int / int_abs(y) as int
    } else {
        -(int_abs(x) as int / int_abs(y) as int)
    }
}

/// Remainder of truncated division: `a - trunc(a / b) * b`.
pub open spec fn rat_rem_v(a: RatV, b: RatV) -> RatV {
    let x = a.n * b.d;
    let y = b.n * a.d;
    norm_rat(x - tdiv_int(x, y) * y, a.d * b.d)
}

/// Value equality of two rational pairs.
pub open spec fn rat_eq_v(a: RatV, b: RatV) -> bool {
    a.n * b.d == b.n * a.d
}

/// Value order of two rational pairs with positive denominators.
pub open spec fn rat_lt_v(a: RatV, b: RatV) -> bool {
    a.n * b.d < b.n * a.d
}

pub open spec fn rat_zero_v() -> RatV {
    RatV { n: 0, d: 1 }
}

pub open spec fn rat_one_v() -> RatV {
    RatV { n: 1, d: 1 }
}

// ------------------------------------------------------------------
// Facts about gcd_nat and norm_rat.
// ------------------------------------------------------------------

pub proof fn lemma_gcd_properties(a: nat, b: nat)
    ensures
        a > 0 || b > 0 ==> gcd_nat(a, b) > 0,
        gcd_nat(a, b) > 0 ==> a % gcd_nat(a, b) == 0 && b % gcd_nat(a, b) == 0,
    decreases b,
{
    if b == 0 {
        if a > 0 {
            vstd::arithmetic::div_mod::lemma_mod_self_0(a as int);
            assert(a % a == 0);
            assert(b % a == 0) by {
                vstd::arithmetic::div_mod::lemma_small_mod(0, a);
            }
        }
    } else {
        lemma_gcd_properties(b, a % b);
        let g = gcd_nat(b, a % b);
        assert(g > 0);
        assert(b % g == 0 && (a % b) % g == 0);
        // a == b * (a / b) + a % b, and g divides both addends.
        lemma_fundamental_div_mod(a as int, b as int);
        let q = a as int / b as int;
        let r = (a % b) as int;
        assert(a as int == b as int * q + r);
        // b == g * (b / g), so b * q == g * ((b / g) * q).
        lemma_fundamental_div_mod(b as int, g as int);
        let bg = b as int / g as int;
        assert(b as int == g as int * bg);
        lemma_fundamental_div_mod(r, g as int);
        let rg = r / g as int;
        assert(r == g as int * rg);
        assert(a as int == g as int * (bg * q + rg)) by (nonlinear_arith)
            requires
                a as int == b as int * q + r,
                b as int == g as int * bg,
                r == g as int * rg,
        ;
        lemma_fundamental_div_mod_converse(
            a as int,
            g as int,
            bg * q + rg,
            0,
        );
        assert(a % g == 0);
    }
}

/// Exact division: if `g` divides `x` exactly then the Euclidean quotient
/// times `g` gives back `x`.
proof fn lemma_exact_div(x: int, g: int)
    requires
        g > 0,
        x % g == 0,
    ensures
        (x / g) * g == x,
        x > 0 ==> x / g > 0,
        x < 0 ==> x / g < 0,
        x / g == 0 ==> x == 0,
{
    lemma_fundamental_div_mod(x, g);
    assert(x == g * (x / g));
    assert(g * (x / g) > 0 ==> x / g > 0) by (nonlinear_arith)
        requires
            g > 0,
    ;
    assert(g * (x / g) < 0 ==> x / g < 0) by (nonlinear_arith)
        requires
            g > 0,
    ;
    assert((x / g) * g == g * (x / g)) by (nonlinear_arith);
}

/// The shape of the lowest-terms normal form: positive denominator, and
/// the numerator keeps the sign of the exact value.
pub proof fn lemma_norm_rat(n: int, d: int)
    requires
        d != 0,
    ensures
        norm_rat(n, d).d > 0,
        norm_rat(n, d).n == 0 <==> n == 0,
        norm_rat(n, d).n > 0 <==> (n > 0 && d > 0) || (n < 0 && d < 0),
{
    let n1: int = if d < 0 { -n } else { n };
    let d1: int = if d < 0 { -d } else { d };
    assert(d1 > 0);
    if n1 == 0 {
    } else {
        lemma_gcd_properties(int_abs(n1), int_abs(d1));
        let g = gcd_nat(int_abs(n1), int_abs(d1)) as int;
        assert(g > 0);
        assert(int_abs(n1) % (g as nat) == 0 && int_abs(d1) % (g as nat) == 0);
        assert(d1 % g == 0);
        lemma_exact_div(d1, g);
        if n1 > 0 {
            assert(n1 % g == 0);
            lemma_exact_div(n1, g);
        } else {
            // |n1| is divisible by g, hence so is n1.
            assert((-n1) % g == 0);
            lemma_fundamental_div_mod(-n1, g);
            let q = (-n1) / g;
            assert(-n1 == g * q);
            assert(n1 == g * (-q)) by (nonlinear_arith)
                requires
                    -n1 == g * q,
            ;
            lemma_fundamental_div_mod_converse(n1, g, -q, 0);
            assert(n1 % g == 0);
            lemma_exact_div(n1, g);
        }
    }
}

// ------------------------------------------------------------------
// Trusted wrappers around the integer operations of the num crate.
// ------------------------------------------------------------------

/// Relies on num's `BigInt: From<u64>`: the value is the given integer.
#[verifier::external_body]
pub fn big_from_u64(x: u64) -> (r: num::bigint::BigInt)
    ensures
        big_int_value(r) == x,
{
    num::bigint::BigInt::from(x)
}

/// Relies on num's `BigInt: From<i64>`: the value is the given integer.
#[verifier::external_body]
pub fn big_from_i64(x: i64) -> (r: num::bigint::BigInt)
    ensures
        big_int_value(r) == x,
{
    num::bigint::BigInt::from(x)
}

/// Relies on num's `BigInt: Clone`: the copy has the same value.
#[verifier::external_body]
pub fn big_clone(b: &num::bigint::BigInt) -> (r: num::bigint::BigInt)
    ensures
        big_int_value(r) == big_int_value(*b),
{
    b.clone()
}

/// Relies on num's `BigInt: PartialEq`, which compares the represented values.
#[verifier::external_body]
pub fn big_eq(a: &num::bigint::BigInt, b: &num::bigint::BigInt) -> (r: bool)
    ensures
        r == (big_int_value(*a) == big_int_value(*b)),
{
    a == b
}

/// Relies on num's `BigInt: Ord`, which orders by represented value.
#[verifier::external_body]
pub fn big_lt(a: &num::bigint::BigInt, b: &num::bigint::BigInt) -> (r: bool)
    ensures
        r == (big_int_value(*a) < big_int_value(*b)),
{
    a < b
}

/// Relies on num's `Neg for &num::bigint::BigInt`: exact arithmetic negation.
#[verifier::external_body]
pub fn big_neg(a: &num::bigint::BigInt) -> (r: num::bigint::BigInt)
    ensures
        big_int_value(r) == -big_int_value(*a),
{
    -a
}

/// Relies on num's `Add for &num::bigint::BigInt`: exact arbitrary-precision addition.
#[verifier::external_body]
pub fn big_add(a: &num::bigint::BigInt, b: &num::bigint::BigInt) -> (r: num::bigint::BigInt)
    ensures
        big_int_value(r) == big_int_value(*a) + big_int_value(*b),
{
    a + b
}

/// Relies on num's `Mul for &num::bigint::BigInt`: exact arbitrary-precision multiplication.
#[verifier::external_body]
pub fn big_mul(a: &num::bigint::BigInt, b: &num::bigint::BigInt) -> (r: num::bigint::BigInt)
    ensures
        big_int_value(r) == big_int_value(*a) * big_int_value(*b),
{
    a * b
}

/// Relies on `num_integer::Integer::div_mod_floor` for `BigInt`: floored
/// division, which for a positive divisor is Euclidean division.
#[verifier::external_body]
pub fn big_divmod(a: &num::bigint::BigInt, b: &num::bigint::BigInt) -> (r: (num::bigint::BigInt, num::bigint::BigInt))
    requires
        big_int_value(*b) > 0,
    ensures
        big_int_value(*a) == big_int_value(r.0) * big_int_value(*b) + big_int_value(r.1),
        0 <= big_int_value(r.1) < big_int_value(*b),
{
    let (q, m) = num::Integer::div_mod_floor(a, b);
    (q, m)
}

/// Relies on num's `Display for BigInt`: the decimal digits of the value,
/// without leading zeros, prefixed by `-` for negative values.
#[verifier::external_body]
pub fn big_to_dec_string(b: &num::bigint::BigInt) -> (r: String)
    ensures
        r@ == int_dec_chars(big_int_value(*b)),
{
    b.to_string()
}

/// Relies on num's `ToPrimitive::to_u64` for `BigInt`: the value if it
/// fits in a `u64`, and `None` exactly when it does not.
#[verifier::external_body]
pub fn big_to_u64(b: &num::bigint::BigInt) -> (r: Option<u64>)
    ensures
        match r {
            Some(x) => big_int_value(*b) == x,
            None => big_int_value(*b) < 0 || big_int_value(*b) > u64::MAX,
        },
{
    num::ToPrimitive::to_u64(b)
}

// ------------------------------------------------------------------
// Decimal digit sequences (the form num prints integers in).
// ------------------------------------------------------------------

pub open spec fn digit_char(d: nat) -> char {
    if d == 0 { '0' }
    else if d == 1 { '1' }
    else if d == 2 { '2' }
    else if d == 3 { '3' }
    else if d == 4 { '4' }
    else if d == 5 { '5' }
    else if d == 6 { '6' }
    else if d == 7 { '7' }
    else if d == 8 { '8' }
    else { '9' }
}

/// The decimal digits of a non-negative integer, most significant first.
pub open spec fn dec_digits(v: nat) -> Seq<char>
    decreases v,
{
    if v < 10 {
        seq![digit_char(v)]
    } else {
        dec_digits(v / 10).push(digit_char(v % 10))
    }
}

/// The decimal rendering of an integer, with a leading `-` when negative.
pub open spec fn int_dec_chars(v: int) -> Seq<char> {
    if v < 0 {
        seq!['-'] + dec_digits((-v) as nat)
    } else {
        dec_digits(v as nat)
    }
}

// ------------------------------------------------------------------
// Finite decimal representations: x = n / 10^k exactly, which exists
// iff the reduced denominator has no prime factor besides 2 and 5.
// ------------------------------------------------------------------

/// How many times `p` divides `v`.
pub open spec fn count_factor(v: nat, p: nat) -> nat
    recommends
        v >= 1,
        p >= 2,
    decreases v,
    when v >= 1 && p >= 2
{
    if v % p == 0 {
        proof {
            lemma_factor_step_decreases(v, p);
        }
        1 + count_factor(v / p, p)
    } else {
        0
    }
}

/// Dividing a positive number by a factor of at least two shrinks it.
pub proof fn lemma_factor_step_decreases(v: nat, p: nat)
    requires
        v >= 1,
        p >= 2,
        v % p == 0,
    ensures
        v / p < v,
{
    lemma_fundamental_div_mod(v as int, p as int);
    assert((v as int) / (p as int) < (v as int)) by (nonlinear_arith)
        requires
            v as int == p as int * (v as int / p as int) + v as int % p as int,
            v as int % p as int == 0,
            p >= 2,
            v >= 1,
    ;
}

/// What remains of `v` after dividing out every factor `p`.
pub open spec fn strip_factor(v: nat, p: nat) -> nat
    recommends
        v >= 1,
        p >= 2,
    decreases v,
    when v >= 1 && p >= 2
{
    if v % p == 0 {
        proof {
            lemma_factor_step_decreases(v, p);
        }
        strip_factor(v / p, p)
    } else {
        v
    }
}

/// The pair `(n, k)` with `x == n / 10^k` and `k` least, if the
/// denominator divides a power of ten.
pub open spec fn decimal_rep_v(x: RatV) -> Option<(int, nat)>
    recommends
        x.d > 0,
{
    let d = x.d as nat;
    let c2 = count_factor(d, 2);
    let r2 = strip_factor(d, 2);
    let c5 = count_factor(r2, 5);
    let r5 = strip_factor(r2, 5);
    if r5 == 1 {
        let mult: int = if c2 < c5 {
            vstd::arithmetic::power::pow(2, (c5 - c2) as nat)
        } else {
            vstd::arithmetic::power::pow(5, (c2 - c5) as nat)
        };
        let k: nat = if c2 < c5 { c5 } else { c2 };
        Some((x.n * mult, k))
    } else {
        None
    }
}

/// The finite decimal representation as far as this machine can index
/// it: a digit count beyond `usize` is treated as not representable.
pub open spec fn finite_dec_repr(x: RatV) -> Option<(int, nat)> {
    match decimal_rep_v(x) {
        Some((m, k)) => if k <= usize::MAX {
            Some((m, k))
        } else {
            None
        },
        None => None,
    }
}

/// Divides out every factor `p` of `v`, returning the residue and the
/// count; mirrors `strip_factor` / `count_factor`.  A count that cannot
/// be represented is reported as `None`.
pub fn strip_count(v: &num::bigint::BigInt, p: &num::bigint::BigInt) -> (r: Option<(num::bigint::BigInt, usize)>)
    requires
        big_int_value(*v) >= 1,
        big_int_value(*p) >= 2,
    ensures
        match r {
            Some((res, c)) => {
                &&& big_int_value(res) == strip_factor(
                    big_int_value(*v) as nat,
                    big_int_value(*p) as nat,
                )
                &&& c as nat == count_factor(
                    big_int_value(*v) as nat,
                    big_int_value(*p) as nat,
                )
            },
            None => count_factor(
                big_int_value(*v) as nat,
                big_int_value(*p) as nat,
            ) > usize::MAX,
        },
    decreases big_int_value(*v),
{
    let ghost vv = big_int_value(*v) as nat;
    let ghost pp = big_int_value(*p) as nat;
    let (q, m) = big_divmod(v, p);
    let z = big_from_u64(0);
    if big_eq(&m, &z) {
        proof {
            assert(big_int_value(*v) == big_int_value(q) * big_int_value(*p));
            assert(vv % pp == 0 && vv / pp == big_int_value(q)) by {
                lemma_fundamental_div_mod_converse(
                    vv as int,
                    pp as int,
                    big_int_value(q),
                    0,
                );
            }
            assert(big_int_value(q) >= 1 && big_int_value(q) < vv) by (nonlinear_arith)
                requires
                    vv == big_int_value(q) * pp,
                    pp >= 2,
                    vv >= 1,
            ;
        }
        match strip_count(&q, p) {
            None => None,
            Some((res, c)) => {
                if c == usize::MAX {
                    None
                } else {
                    Some((res, c + 1))
                }
            },
        }
    } else {
        proof {
            assert(vv % pp != 0) by {
                lemma_fundamental_div_mod_converse(
                    vv as int,
                    pp as int,
                    big_int_value(q),
                    big_int_value(m),
                );
            }
        }
        Some((big_clone(v), 0))
    }
}

/// Returns a pair of integers `(n, k)` such that `x = n / 10^k`, or
/// `None` if no such integers exist (or the exponent overflows `usize`).
pub fn decimal_representation(x: &Rational) -> (r: Option<(num::bigint::BigInt, usize)>)
    requires
        ratio_denom(*x) > 0,
    ensures
        match r {
            Some((m, k)) => finite_dec_repr(rat_v(*x)) == Some((big_int_value(m), k as nat)),
            None => finite_dec_repr(rat_v(*x)) is None,
        },
{
    let d = rat_denom_big(x);
    let two = big_from_u64(2);
    let five = big_from_u64(5);
    let one = big_from_u64(1);
    let s2 = strip_count(&d, &two);
    match s2 {
        None => {
            proof {
                let dv = rat_v(*x).d as nat;
                assert(count_factor(dv, 2) > usize::MAX);
                if decimal_rep_v(rat_v(*x)) is Some {
                    let k = decimal_rep_v(rat_v(*x))->Some_0.1;
                    assert(k >= count_factor(dv, 2));
                }
            }
            None
        },
        Some((r2, c2)) => {
            proof {
                lemma_strip_factor_pos(big_int_value(d) as nat, 2);
            }
            let s5 = strip_count(&r2, &five);
            match s5 {
                None => {
                    proof {
                        let dv = rat_v(*x).d as nat;
                        if decimal_rep_v(rat_v(*x)) is Some {
                            let k = decimal_rep_v(rat_v(*x))->Some_0.1;
                            assert(k >= count_factor(strip_factor(dv, 2), 5));
                        }
                    }
                    None
                },
                Some((r5, c5)) => {
                    if big_eq(&r5, &one) {
                        let n = rat_numer_big(x);
                        let (base, k, e) = if c2 < c5 {
                            (&two, c5, c5 - c2)
                        } else {
                            (&five, c2, c2 - c5)
                        };
                        let m = big_mul_pow(&n, base, e);
                        Some((m, k))
                    } else {
                        None
                    }
                },
            }
        },
    }
}

proof fn lemma_strip_factor_pos(v: nat, p: nat)
    requires
        v >= 1,
        p >= 2,
    ensures
        strip_factor(v, p) >= 1,
    decreases v,
{
    if v % p == 0 {
        lemma_fundamental_div_mod(v as int, p as int);
        assert(v / p >= 1 && v / p < v) by (nonlinear_arith)
            requires
                v == p * (v / p),
                p >= 2,
                v >= 1,
        ;
        lemma_strip_factor_pos(v / p, p);
    }
}

/// `n * base^e`, by repeated multiplication.
pub fn big_mul_pow(n: &num::bigint::BigInt, base: &num::bigint::BigInt, e: usize) -> (r: num::bigint::BigInt)
    ensures
        big_int_value(r) == big_int_value(*n) * vstd::arithmetic::power::pow(
            big_int_value(*base),
            e as nat,
        ),
{
    let mut acc = big_clone(n);
    let mut i: usize = 0;
    proof {
        vstd::arithmetic::power::lemma_pow0(big_int_value(*base));
    }
    while i < e
        invariant
            0 <= i <= e,
            big_int_value(acc) == big_int_value(*n) * vstd::arithmetic::power::pow(
                big_int_value(*base),
                i as nat,
            ),
        decreases e - i,
    {
        let next = big_mul(&acc, base);
        proof {
            let b = big_int_value(*base);
            let nv = big_int_value(*n);
            vstd::arithmetic::power::lemma_pow1(b);
            vstd::arithmetic::power::lemma_pow_adds(b, i as nat, 1);
            assert(nv * vstd::arithmetic::power::pow(b, i as nat) * b == nv
                * (vstd::arithmetic::power::pow(b, i as nat) * vstd::arithmetic::power::pow(
                b,
                1,
            ))) by (nonlinear_arith)
                requires
                    vstd::arithmetic::power::pow(b, 1) == b,
            ;
        }
        acc = next;
        i = i + 1;
    }
    acc
}

// ------------------------------------------------------------------
// Trusted wrappers around the rational operations of the num crate.
// Every `Ratio` these return is in lowest terms with a positive
// denominator, which `norm_rat` captures.
// ------------------------------------------------------------------

/// Relies on `Ratio::new`, which reduces to lowest terms with a positive
/// denominator and panics only on a zero denominator.
#[verifier::external_body]
pub fn rat_new(n: num::bigint::BigInt, d: num::bigint::BigInt) -> (r: Rational)
    requires
        big_int_value(d) != 0,
    ensures
        rat_v(r) == norm_rat(big_int_value(n), big_int_value(d)),
{
    num::rational::Ratio::new(n, d)
}

/// Relies on `Ratio::from_integer`: the value over a denominator of one.
#[verifier::external_body]
pub fn rat_from_big(n: num::bigint::BigInt) -> (r: Rational)
    ensures
        ratio_numer(r) == big_int_value(n),
        ratio_denom(r) == 1,
{
    num::rational::Ratio::from_integer(n)
}

/// Relies on num's `Ratio: Clone`: the copy holds the same pair.
#[verifier::external_body]
pub fn rat_clone(x: &Rational) -> (r: Rational)
    ensures
        rat_v(r) == rat_v(*x),
{
    x.clone()
}

/// Relies on `Ratio::numer`: the numerator of the held pair.
#[verifier::external_body]
pub fn rat_numer_big(x: &Rational) -> (r: num::bigint::BigInt)
    ensures
        big_int_value(r) == ratio_numer(*x),
{
    x.numer().clone()
}

/// Relies on `Ratio::denom`: the denominator of the held pair.
#[verifier::external_body]
pub fn rat_denom_big(x: &Rational) -> (r: num::bigint::BigInt)
    ensures
        big_int_value(r) == ratio_denom(*x),
{
    x.denom().clone()
}

/// Relies on num's `Add for &Ratio`: the reduced exact sum.
#[verifier::external_body]
pub fn rat_add(a: &Rational, b: &Rational) -> (r: Rational)
    requires
        ratio_denom(*a) > 0,
        ratio_denom(*b) > 0,
    ensures
        rat_v(r) == rat_add_v(rat_v(*a), rat_v(*b)),
{
    a + b
}

/// Relies on num's `Sub for &Ratio`: the reduced exact difference.
#[verifier::external_body]
pub fn rat_sub(a: &Rational, b: &Rational) -> (r: Rational)
    requires
        ratio_denom(*a) > 0,
        ratio_denom(*b) > 0,
    ensures
        rat_v(r) == rat_sub_v(rat_v(*a), rat_v(*b)),
{
    a - b
}

/// Relies on num's `Mul for &Ratio`: the reduced exact product.
#[verifier::external_body]
pub fn rat_mul(a: &Rational, b: &Rational) -> (r: Rational)
    requires
        ratio_denom(*a) > 0,
        ratio_denom(*b) > 0,
    ensures
        rat_v(r) == rat_mul_v(rat_v(*a), rat_v(*b)),
{
    a * b
}

/// Relies on num's `Div for &Ratio`: the reduced exact quotient; a zero
/// divisor would panic, so it is excluded.
#[verifier::external_body]
pub fn rat_div(a: &Rational, b: &Rational) -> (r: Rational)
    requires
        ratio_denom(*a) > 0,
        ratio_denom(*b) > 0,
        ratio_numer(*b) != 0,
    ensures
        rat_v(r) == rat_div_v(rat_v(*a), rat_v(*b)),
{
    a / b
}

/// Relies on num's `Rem for &Ratio`: the remainder of division truncated
/// towards zero; a zero divisor would panic, so it is excluded.
#[verifier::external_body]
pub fn rat_rem(a: &Rational, b: &Rational) -> (r: Rational)
    requires
        ratio_denom(*a) > 0,
        ratio_denom(*b) > 0,
        ratio_numer(*b) != 0,
    ensures
        rat_v(r) == rat_rem_v(rat_v(*a), rat_v(*b)),
{
    a % b
}

/// Relies on num's `Neg for &Ratio`: the numerator is negated in place.
#[verifier::external_body]
pub fn rat_neg(a: &Rational) -> (r: Rational)
    ensures
        ratio_numer(r) == -ratio_numer(*a),
        ratio_denom(r) == ratio_denom(*a),
{
    -a
}

/// Relies on num's `Ord for Ratio`, which orders by represented value
/// when denominators are positive.
#[verifier::external_body]
pub fn rat_lt(a: &Rational, b: &Rational) -> (r: bool)
    requires
        ratio_denom(*a) > 0,
        ratio_denom(*b) > 0,
    ensures
        r == rat_lt_v(rat_v(*a), rat_v(*b)),
{
    a < b
}

// ------------------------------------------------------------------
// Verified helpers over the wrappers.
// ------------------------------------------------------------------

pub fn rat_is_zero(x: &Rational) -> (r: bool)
    ensures
        r == (ratio_numer(*x) == 0),
{
    let n = rat_numer_big(x);
    let z = big_from_u64(0);
    big_eq(&n, &z)
}

pub fn rat_is_negative(x: &Rational) -> (r: bool)
    ensures
        r == (ratio_numer(*x) < 0),
{
    let n = rat_numer_big(x);
    let z = big_from_u64(0);
    big_lt(&n, &z)
}

pub fn rat_is_one_denom(x: &Rational) -> (r: bool)
    ensures
        r == (ratio_denom(*x) == 1),
{
    let d = rat_denom_big(x);
    let o = big_from_u64(1);
    big_eq(&d, &o)
}

pub fn rat_pair_eq(a: &Rational, b: &Rational) -> (r: bool)
    ensures
        r == (rat_v(*a) == rat_v(*b)),
{
    let an = rat_numer_big(a);
    let bn = rat_numer_big(b);
    let ad = rat_denom_big(a);
    let bd = rat_denom_big(b);
    let r = big_eq(&an, &bn) && big_eq(&ad, &bd);
    proof {
        if r {
            assert(rat_v(*a) == rat_v(*b));
        }
    }
    r
}

pub fn rat_zero() -> (r: Rational)
    ensures
        rat_v(r) == rat_zero_v(),
{
    let r = rat_from_big(big_from_u64(0));
    proof {
        assert(rat_v(r) == rat_zero_v());
    }
    r
}

pub fn rat_one() -> (r: Rational)
    ensures
        rat_v(r) == rat_one_v(),
{
    let r = rat_from_big(big_from_u64(1));
    proof {
        assert(rat_v(r) == rat_one_v());
    }
    r
}


// ------------------------------------------------------------------
// Complex arithmetic over rational pairs.
// ------------------------------------------------------------------

pub open spec fn c_add_v(a: ComplexV, b: ComplexV) -> ComplexV {
    ComplexV { re: rat_add_v(a.re, b.re), im: rat_add_v(a.im, b.im) }
}

pub open spec fn c_sub_v(a: ComplexV, b: ComplexV) -> ComplexV {
    ComplexV { re: rat_sub_v(a.re, b.re), im: rat_sub_v(a.im, b.im) }
}

pub open spec fn c_neg_v(a: ComplexV) -> ComplexV {
    ComplexV { re: rat_neg_v(a.re), im: rat_neg_v(a.im) }
}

pub open spec fn c_mul_v(a: ComplexV, b: ComplexV) -> ComplexV {
    ComplexV {
        re: rat_sub_v(rat_mul_v(a.re, b.re), rat_mul_v(a.im, b.im)),
        im: rat_add_v(rat_mul_v(a.re, b.im), rat_mul_v(a.im, b.re)),
    }
}

/// The squared absolute value, `re*re + im*im`.
pub open spec fn c_norm_sq_v(a: ComplexV) -> RatV {
    rat_add_v(rat_mul_v(a.re, a.re), rat_mul_v(a.im, a.im))
}

pub open spec fn c_is_zero_v(a: ComplexV) -> bool {
    a.re.n == 0 && a.im.n == 0
}

/// Division by the conjugate over the squared absolute value.
pub open spec fn c_div_v(a: ComplexV, b: ComplexV) -> ComplexV {
    let nsq = c_norm_sq_v(b);
    ComplexV {
        re: rat_div_v(rat_add_v(rat_mul_v(a.re, b.re), rat_mul_v(a.im, b.im)), nsq),
        im: rat_div_v(rat_sub_v(rat_mul_v(a.im, b.re), rat_mul_v(a.re, b.im)), nsq),
    }
}

pub open spec fn c_zero_v() -> ComplexV {
    ComplexV { re: rat_zero_v(), im: rat_zero_v() }
}

pub open spec fn c_one_v() -> ComplexV {
    ComplexV { re: rat_one_v(), im: rat_zero_v() }
}

/// `z` to a non-negative integer power, by repeated multiplication.
pub open spec fn c_pow_v(z: ComplexV, k: nat) -> ComplexV
    decreases k,
{
    if k == 0 {
        c_one_v()
    } else {
        c_mul_v(c_pow_v(z, (k - 1) as nat), z)
    }
}

/// The reciprocal of a non-zero complex number.
pub open spec fn c_recip_v(z: ComplexV) -> ComplexV {
    c_div_v(c_one_v(), z)
}

pub open spec fn c_eq_v(a: ComplexV, b: ComplexV) -> bool {
    rat_eq_v(a.re, b.re) && rat_eq_v(a.im, b.im)
}

// ------------------------------------------------------------------
// Well-formedness of the rational and complex operations.
// ------------------------------------------------------------------

pub proof fn lemma_rat_add_wf(a: RatV, b: RatV)
    requires
        a.d > 0,
        b.d > 0,
    ensures
        rat_add_v(a, b).d > 0,
        rat_add_v(a, b).n == 0 <==> a.n * b.d + b.n * a.d == 0,
{
    assert(a.d * b.d > 0) by (nonlinear_arith)
        requires
            a.d > 0,
            b.d > 0,
    ;
    lemma_norm_rat(a.n * b.d + b.n * a.d, a.d * b.d);
}

pub proof fn lemma_rat_sub_wf(a: RatV, b: RatV)
    requires
        a.d > 0,
        b.d > 0,
    ensures
        rat_sub_v(a, b).d > 0,
{
    assert(a.d * b.d > 0) by (nonlinear_arith)
        requires
            a.d > 0,
            b.d > 0,
    ;
    lemma_norm_rat(a.n * b.d - b.n * a.d, a.d * b.d);
}

pub proof fn lemma_rat_mul_wf(a: RatV, b: RatV)
    requires
        a.d > 0,
        b.d > 0,
    ensures
        rat_mul_v(a, b).d > 0,
        rat_mul_v(a, b).n == 0 <==> a.n * b.n == 0,
        rat_mul_v(a, b).n > 0 <==> a.n * b.n > 0,
{
    assert(a.d * b.d > 0) by (nonlinear_arith)
        requires
            a.d > 0,
            b.d > 0,
    ;
    lemma_norm_rat(a.n * b.n, a.d * b.d);
}

pub proof fn lemma_rat_div_wf(a: RatV, b: RatV)
    requires
        a.d > 0,
        b.d > 0,
        b.n != 0,
    ensures
        rat_div_v(a, b).d > 0,
{
    assert(a.d * b.n != 0) by (nonlinear_arith)
        requires
            a.d > 0,
            b.n != 0,
    ;
    lemma_norm_rat(a.n * b.d, a.d * b.n);
}

pub proof fn lemma_rat_rem_wf(a: RatV, b: RatV)
    requires
        a.d > 0,
        b.d > 0,
        b.n != 0,
    ensures
        rat_rem_v(a, b).d > 0,
{
    let x = a.n * b.d;
    let y = b.n * a.d;
    assert(a.d * b.d > 0) by (nonlinear_arith)
        requires
            a.d > 0,
            b.d > 0,
    ;
    lemma_norm_rat(x - tdiv_int(x, y) * y, a.d * b.d);
}

pub open spec fn c_wf(a: ComplexV) -> bool {
    a.re.d > 0 && a.im.d > 0
}

pub proof fn lemma_c_add_wf(a: ComplexV, b: ComplexV)
    requires
        c_wf(a),
        c_wf(b),
    ensures
        c_wf(c_add_v(a, b)),
{
    lemma_rat_add_wf(a.re, b.re);
    lemma_rat_add_wf(a.im, b.im);
}

pub proof fn lemma_c_sub_wf(a: ComplexV, b: ComplexV)
    requires
        c_wf(a),
        c_wf(b),
    ensures
        c_wf(c_sub_v(a, b)),
{
    lemma_rat_sub_wf(a.re, b.re);
    lemma_rat_sub_wf(a.im, b.im);
}

pub proof fn lemma_c_mul_wf(a: ComplexV, b: ComplexV)
    requires
        c_wf(a),
        c_wf(b),
    ensures
        c_wf(c_mul_v(a, b)),
{
    lemma_rat_mul_wf(a.re, b.re);
    lemma_rat_mul_wf(a.im, b.im);
    lemma_rat_mul_wf(a.re, b.im);
    lemma_rat_mul_wf(a.im, b.re);
    lemma_rat_sub_wf(rat_mul_v(a.re, b.re), rat_mul_v(a.im, b.im));
    lemma_rat_add_wf(rat_mul_v(a.re, b.im), rat_mul_v(a.im, b.re));
}

/// The squared absolute value of a non-zero complex number has a
/// non-zero numerator: the sum of two squares, one of them positive.
pub proof fn lemma_c_norm_sq_nonzero(b: ComplexV)
    requires
        c_wf(b),
        !c_is_zero_v(b),
    ensures
        c_norm_sq_v(b).n != 0,
        c_norm_sq_v(b).d > 0,
{
    let u = rat_mul_v(b.re, b.re);
    let v = rat_mul_v(b.im, b.im);
    lemma_rat_mul_wf(b.re, b.re);
    lemma_rat_mul_wf(b.im, b.im);
    assert(b.re.n * b.re.n >= 0 && b.im.n * b.im.n >= 0) by (nonlinear_arith);
    assert(b.re.n != 0 ==> b.re.n * b.re.n > 0) by (nonlinear_arith);
    assert(b.im.n != 0 ==> b.im.n * b.im.n > 0) by (nonlinear_arith);
    assert(u.n >= 0 && v.n >= 0 && (u.n > 0 || v.n > 0)) by {
        assert(b.re.d * b.re.d > 0 && b.im.d * b.im.d > 0) by (nonlinear_arith)
            requires
                b.re.d > 0,
                b.im.d > 0,
        ;
        lemma_norm_rat(b.re.n * b.re.n, b.re.d * b.re.d);
        lemma_norm_rat(b.im.n * b.im.n, b.im.d * b.im.d);
    }
    assert(u.n * v.d + v.n * u.d > 0) by (nonlinear_arith)
        requires
            u.d > 0,
            v.d > 0,
            u.n >= 0,
            v.n >= 0,
            u.n > 0 || v.n > 0,
    ;
    lemma_rat_add_wf(u, v);
}

pub proof fn lemma_c_div_wf(a: ComplexV, b: ComplexV)
    requires
        c_wf(a),
        c_wf(b),
        !c_is_zero_v(b),
    ensures
        c_wf(c_div_v(a, b)),
{
    lemma_c_norm_sq_nonzero(b);
    let nsq = c_norm_sq_v(b);
    lemma_rat_mul_wf(a.re, b.re);
    lemma_rat_mul_wf(a.im, b.im);
    lemma_rat_mul_wf(a.im, b.re);
    lemma_rat_mul_wf(a.re, b.im);
    lemma_rat_add_wf(rat_mul_v(a.re, b.re), rat_mul_v(a.im, b.im));
    lemma_rat_sub_wf(rat_mul_v(a.im, b.re), rat_mul_v(a.re, b.im));
    lemma_rat_div_wf(rat_add_v(rat_mul_v(a.re, b.re), rat_mul_v(a.im, b.im)), nsq);
    lemma_rat_div_wf(rat_sub_v(rat_mul_v(a.im, b.re), rat_mul_v(a.re, b.im)), nsq);
}

/// Exact value equality of two rationals, by cross-multiplication.
pub fn rat_value_eq(a: &Rational, b: &Rational) -> (r: bool)
    ensures
        r == rat_eq_v(rat_v(*a), rat_v(*b)),
{
    let an = rat_numer_big(a);
    let ad = rat_denom_big(a);
    let bn = rat_numer_big(b);
    let bd = rat_denom_big(b);
    let l = big_mul(&an, &bd);
    let r2 = big_mul(&bn, &ad);
    big_eq(&l, &r2)
}

} // verus!
