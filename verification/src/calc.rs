//! The calculator: a gate deciding whether a query looks arithmetical,
//! and an exact evaluator over rationals for `+ - * /`, parentheses,
//! unary minus, and the recognised functions. Everything is computed
//! exactly: the square root only of exact squares, and the trigonometric,
//! logarithmic and exponential functions only at their exactly
//! representable points (an argument of zero, or of one for the
//! logarithms). A result that is not finite, or not exactly
//! representable, gives no value and so no row.

use vstd::prelude::*;
use crate::text::digit_char;
use crate::text::digits_of;
use crate::text::is_digit;
use crate::text::starts_with;
use crate::text::starts_with_chars;
use crate::currency::digit_run;
use crate::currency::digit_run_exec;
use crate::text::chars_value;

verus! {

/// Whether `p` occurs in `s` as a contiguous substring.
pub open spec fn occurs(s: Seq<char>, p: Seq<char>) -> bool {
    exists|k: int| 0 <= k <= s.len() - p.len() && #[trigger] s.subrange(k, k + p.len() as int) == p
}

/// Scan for a substring.
pub fn occurs_exec(s: &[char], p: &[char]) -> (r: bool)
    ensures
        r == occurs(s@, p@),
{
    if p.len() > s.len() {
        proof {
            assert(!occurs(s@, p@));
        }
        return false;
    }
    if p.len() == 0 {
        proof {
            assert(s@.subrange(0, 0 + p@.len() as int) =~= p@);
        }
        return true;
    }
    let mut k: usize = 0;
    while k <= s.len() - p.len()
        invariant
            1 <= p@.len() <= s@.len(),
            k <= s@.len() - p@.len() + 1,
            forall|j: int| 0 <= j < k ==> #[trigger] s@.subrange(j, j + p@.len() as int) != p@,
        decreases s@.len() - p@.len() + 1 - k,
    {
        let tail: &[char] = &s[k..s.len()];
        if starts_with_chars(tail, p) {
            proof {
                assert(tail@ =~= s@.subrange(k as int, s@.len() as int));
                assert(tail@.subrange(0, p@.len() as int) =~= s@.subrange(
                    k as int,
                    k + p@.len() as int,
                ));
            }
            return true;
        }
        proof {
            assert(tail@ =~= s@.subrange(k as int, s@.len() as int));
            assert(tail@.subrange(0, p@.len() as int) =~= s@.subrange(
                k as int,
                k + p@.len() as int,
            ));
        }
        k += 1;
    }
    proof {
        if occurs(s@, p@) {
            let j = choose|j: int|
                0 <= j <= s@.len() - p@.len() && #[trigger] s@.subrange(j, j + p@.len() as int)
                    == p@;
            assert(false);
        }
    }
    false
}

/// The names of the functions the calculator recognises.
pub open spec fn has_func_name(s: Seq<char>) -> bool {
    occurs(s, "sqrt"@) || occurs(s, "sin"@) || occurs(s, "cos"@) || occurs(s, "tan"@) || occurs(
        s,
        "log"@,
    ) || occurs(s, "ln"@) || occurs(s, "exp"@) || occurs(s, "abs"@) || occurs(s, "floor"@)
        || occurs(s, "ceil"@)
}

/// Whether an arithmetic operator occurs.
pub open spec fn has_operator(s: Seq<char>) -> bool {
    exists|i: int|
        0 <= i < s.len() && (s[i] == '+' || s[i] == '-' || s[i] == '*' || s[i] == '/')
}

/// Whether the query starts like an expression: with a digit, an opening
/// parenthesis, a minus, a point, or a function name.
pub open spec fn calc_start_ok(s: Seq<char>) -> bool {
    s.len() > 0 && (is_digit(s[0]) || s[0] == '(' || s[0] == '-' || s[0] == '.' || starts_with(
        s,
        "sqrt"@,
    ) || starts_with(s, "sin"@) || starts_with(s, "cos"@) || starts_with(s, "tan"@)
        || starts_with(s, "log"@) || starts_with(s, "ln"@) || starts_with(s, "exp"@)
        || starts_with(s, "abs"@) || starts_with(s, "floor"@) || starts_with(s, "ceil"@))
}

/// The calculator gate: the query must hold an operator or a function
/// name, and must start like an expression.
pub open spec fn calc_gate(s: Seq<char>) -> bool {
    (has_operator(s) || has_func_name(s)) && calc_start_ok(s)
}

/// Test the calculator gate.
pub fn calc_gate_exec(s: &[char]) -> (r: bool)
    ensures
        r == calc_gate(s@),
{
    let mut has_op = false;
    let mut i: usize = 0;
    while i < s.len()
        invariant
            i <= s@.len(),
            has_op == (exists|j: int|
                0 <= j < i && (s@[j] == '+' || s@[j] == '-' || s@[j] == '*' || s@[j] == '/')),
        decreases s@.len() - i,
    {
        let c = s[i];
        if c == '+' || c == '-' || c == '*' || c == '/' {
            has_op = true;
        }
        i += 1;
    }
    proof {
        if has_op {
            assert(has_operator(s@));
        } else {
            assert(!has_operator(s@));
        }
    }
    let has_fn = occurs_exec(s, crate::text::str_chars("sqrt").as_slice()) || occurs_exec(
        s,
        crate::text::str_chars("sin").as_slice(),
    ) || occurs_exec(s, crate::text::str_chars("cos").as_slice()) || occurs_exec(
        s,
        crate::text::str_chars("tan").as_slice(),
    ) || occurs_exec(s, crate::text::str_chars("log").as_slice()) || occurs_exec(
        s,
        crate::text::str_chars("ln").as_slice(),
    ) || occurs_exec(s, crate::text::str_chars("exp").as_slice()) || occurs_exec(
        s,
        crate::text::str_chars("abs").as_slice(),
    ) || occurs_exec(s, crate::text::str_chars("floor").as_slice()) || occurs_exec(
        s,
        crate::text::str_chars("ceil").as_slice(),
    );
    if !has_op && !has_fn {
        return false;
    }
    if s.len() == 0 {
        return false;
    }
    let c0 = s[0];
    let u = crate::text::char_code(c0);
    let start_ok = (48 <= u && u <= 57) || c0 == '(' || c0 == '-' || c0 == '.'
        || starts_with_chars(s, crate::text::str_chars("sqrt").as_slice()) || starts_with_chars(
        s,
        crate::text::str_chars("sin").as_slice(),
    ) || starts_with_chars(s, crate::text::str_chars("cos").as_slice()) || starts_with_chars(
        s,
        crate::text::str_chars("tan").as_slice(),
    ) || starts_with_chars(s, crate::text::str_chars("log").as_slice()) || starts_with_chars(
        s,
        crate::text::str_chars("ln").as_slice(),
    ) || starts_with_chars(s, crate::text::str_chars("exp").as_slice()) || starts_with_chars(
        s,
        crate::text::str_chars("abs").as_slice(),
    ) || starts_with_chars(s, crate::text::str_chars("floor").as_slice()) || starts_with_chars(
        s,
        crate::text::str_chars("ceil").as_slice(),
    );
    start_ok
}

/// An exact rational: `num / den`, with a positive denominator.
#[derive(Clone, Copy, PartialEq, Eq, Structural, Debug)]
pub struct Rat {
    pub num: i64,
    pub den: u64,
}

/// The view of a rational: numerator and denominator.
pub open spec fn rat_v(r: Rat) -> (int, int) {
    (r.num as int, r.den as int)
}

/// The sum, when numerator and denominator stay in range.
pub open spec fn rat_add_spec(a: (int, int), b: (int, int)) -> Option<(int, int)> {
    let n = a.0 * b.1 + b.0 * a.1;
    let d = a.1 * b.1;
    if i64::MIN <= n <= i64::MAX && 1 <= d <= u64::MAX {
        Some((n, d))
    } else {
        None
    }
}

/// The difference, when in range.
pub open spec fn rat_sub_spec(a: (int, int), b: (int, int)) -> Option<(int, int)> {
    let n = a.0 * b.1 - b.0 * a.1;
    let d = a.1 * b.1;
    if i64::MIN <= n <= i64::MAX && 1 <= d <= u64::MAX {
        Some((n, d))
    } else {
        None
    }
}

/// The product, when in range.
pub open spec fn rat_mul_spec(a: (int, int), b: (int, int)) -> Option<(int, int)> {
    let n = a.0 * b.0;
    let d = a.1 * b.1;
    if i64::MIN <= n <= i64::MAX && 1 <= d <= u64::MAX {
        Some((n, d))
    } else {
        None
    }
}

/// The quotient: `None` on division by zero, or out of range.
pub open spec fn rat_div_spec(a: (int, int), b: (int, int)) -> Option<(int, int)> {
    if b.0 == 0 {
        None
    } else {
        let n = if b.0 < 0 {
            -(a.0 * b.1)
        } else {
            a.0 * b.1
        };
        let d = a.1 * (if b.0 < 0 {
            -b.0
        } else {
            b.0
        });
        if i64::MIN <= n <= i64::MAX && 1 <= d <= u64::MAX {
            Some((n, d))
        } else {
            None
        }
    }
}

/// Whether a rational value is well formed.
pub open spec fn rat_ok(r: Rat) -> bool {
    r.den >= 1
}

/// Add two rationals.
pub fn rat_add(a: Rat, b: Rat) -> (r: Option<Rat>)
    requires
        rat_ok(a),
        rat_ok(b),
    ensures
        match r {
            Some(v) => rat_add_spec(rat_v(a), rat_v(b)) == Some(rat_v(v)) && rat_ok(v),
            None => rat_add_spec(rat_v(a), rat_v(b)) is None,
        },
{
    proof {
        lemma_i64_u64_prod_bounds(a.num, b.den);
        lemma_i64_u64_prod_bounds(b.num, a.den);
        lemma_u64_prod_bounds(a.den, b.den);
    }
    let n1: i128 = (a.num as i128) * (b.den as i128);
    let n2: i128 = (b.num as i128) * (a.den as i128);
    let n: i128 = match n1.checked_add(n2) {
        Some(v) => v,
        None => {
            return None;
        },
    };
    let d: u128 = (a.den as u128) * (b.den as u128);
    if n < -0x8000_0000_0000_0000 || n > 0x7fff_ffff_ffff_ffff || d > 0xffff_ffff_ffff_ffff {
        return None;
    }
    Some(Rat { num: n as i64, den: d as u64 })
}

/// Subtract two rationals.
pub fn rat_sub(a: Rat, b: Rat) -> (r: Option<Rat>)
    requires
        rat_ok(a),
        rat_ok(b),
    ensures
        match r {
            Some(v) => rat_sub_spec(rat_v(a), rat_v(b)) == Some(rat_v(v)) && rat_ok(v),
            None => rat_sub_spec(rat_v(a), rat_v(b)) is None,
        },
{
    proof {
        lemma_i64_u64_prod_bounds(a.num, b.den);
        lemma_i64_u64_prod_bounds(b.num, a.den);
        lemma_u64_prod_bounds(a.den, b.den);
    }
    let n1: i128 = (a.num as i128) * (b.den as i128);
    let n2: i128 = (b.num as i128) * (a.den as i128);
    let n: i128 = match n1.checked_sub(n2) {
        Some(v) => v,
        None => {
            return None;
        },
    };
    let d: u128 = (a.den as u128) * (b.den as u128);
    if n < -0x8000_0000_0000_0000 || n > 0x7fff_ffff_ffff_ffff || d > 0xffff_ffff_ffff_ffff {
        return None;
    }
    Some(Rat { num: n as i64, den: d as u64 })
}

/// Multiply two rationals.
pub fn rat_mul(a: Rat, b: Rat) -> (r: Option<Rat>)
    requires
        rat_ok(a),
        rat_ok(b),
    ensures
        match r {
            Some(v) => rat_mul_spec(rat_v(a), rat_v(b)) == Some(rat_v(v)) && rat_ok(v),
            None => rat_mul_spec(rat_v(a), rat_v(b)) is None,
        },
{
    proof {
        lemma_i64_prod_bounds(a.num, b.num);
        lemma_u64_prod_bounds(a.den, b.den);
    }
    let n: i128 = (a.num as i128) * (b.num as i128);
    let d: u128 = (a.den as u128) * (b.den as u128);
    if n < -0x8000_0000_0000_0000 || n > 0x7fff_ffff_ffff_ffff || d > 0xffff_ffff_ffff_ffff {
        return None;
    }
    Some(Rat { num: n as i64, den: d as u64 })
}

/// Divide two rationals; division by zero gives `None`.
pub fn rat_div(a: Rat, b: Rat) -> (r: Option<Rat>)
    requires
        rat_ok(a),
        rat_ok(b),
    ensures
        match r {
            Some(v) => rat_div_spec(rat_v(a), rat_v(b)) == Some(rat_v(v)) && rat_ok(v),
            None => rat_div_spec(rat_v(a), rat_v(b)) is None,
        },
{
    if b.num == 0 {
        return None;
    }
    let bmag: u64 = if b.num < 0 {
        if b.num == i64::MIN {
            0x8000_0000_0000_0000u64
        } else {
            (-b.num) as u64
        }
    } else {
        b.num as u64
    };
    proof {
        lemma_i64_u64_prod_bounds(a.num, b.den);
        lemma_u64_prod_bounds(a.den, bmag);
    }
    let n0: i128 = (a.num as i128) * (b.den as i128);
    let n: i128 = if b.num < 0 {
        -n0
    } else {
        n0
    };
    let d: u128 = (a.den as u128) * (bmag as u128);
    proof {
        assert(bmag as int == if b.num < 0 {
            -(b.num as int)
        } else {
            b.num as int
        });
        assert(d as int == (a.den as int) * (bmag as int));
    }
    if n < -0x8000_0000_0000_0000 || n > 0x7fff_ffff_ffff_ffff || d > 0xffff_ffff_ffff_ffff {
        return None;
    }
    Some(Rat { num: n as i64, den: d as u64 })
}

/// The product of an `i64` and a `u64` fits an `i128`, leaving room for
/// its negation.
proof fn lemma_i64_u64_prod_bounds(x: i64, y: u64)
    ensures
        (x as int) * (y as int) > i128::MIN,
        (x as int) * (y as int) < i128::MAX,
{
    assert((x as int) * (y as int) > i128::MIN && (x as int) * (y as int) < i128::MAX)
        by (nonlinear_arith)
        requires
            i64::MIN <= x <= i64::MAX,
            0 <= y <= u64::MAX,
    ;
}

/// The product of two `i64`s fits an `i128`.
proof fn lemma_i64_prod_bounds(x: i64, y: i64)
    ensures
        (x as int) * (y as int) >= i128::MIN,
        (x as int) * (y as int) <= i128::MAX,
{
    assert((x as int) * (y as int) >= i128::MIN && (x as int) * (y as int) <= i128::MAX)
        by (nonlinear_arith)
        requires
            i64::MIN <= x <= i64::MAX,
            i64::MIN <= y <= i64::MAX,
    ;
}

/// The product of two `u64`s fits a `u128`; of two positive ones it is
/// positive.
proof fn lemma_u64_prod_bounds(x: u64, y: u64)
    ensures
        (x as int) * (y as int) >= 0,
        (x as int) * (y as int) <= u128::MAX,
        x >= 1 && y >= 1 ==> (x as int) * (y as int) >= 1,
{
    assert((x as int) * (y as int) >= 0 && (x as int) * (y as int) <= u128::MAX && (x >= 1 && y
        >= 1 ==> (x as int) * (y as int) >= 1)) by (nonlinear_arith)
        requires
            0 <= x <= u64::MAX,
            0 <= y <= u64::MAX,
    ;
}



/// Negation, when in range.
pub open spec fn rat_neg_spec(a: (int, int)) -> Option<(int, int)> {
    if i64::MIN <= -a.0 <= i64::MAX {
        Some((-a.0, a.1))
    } else {
        None
    }
}

/// Negate a rational.
pub fn rat_neg(a: Rat) -> (r: Option<Rat>)
    requires
        rat_ok(a),
    ensures
        match r {
            Some(v) => rat_neg_spec(rat_v(a)) == Some(rat_v(v)) && rat_ok(v),
            None => rat_neg_spec(rat_v(a)) is None,
        },
{
    if a.num == i64::MIN {
        None
    } else {
        Some(Rat { num: -a.num, den: a.den })
    }
}

/// Absolute value, when in range.
pub open spec fn rat_abs_spec(a: (int, int)) -> Option<(int, int)> {
    if a.0 < 0 {
        rat_neg_spec(a)
    } else {
        Some(a)
    }
}

/// The absolute value of a rational.
pub fn rat_abs(a: Rat) -> (r: Option<Rat>)
    requires
        rat_ok(a),
    ensures
        match r {
            Some(v) => rat_abs_spec(rat_v(a)) == Some(rat_v(v)) && rat_ok(v),
            None => rat_abs_spec(rat_v(a)) is None,
        },
{
    if a.num < 0 {
        rat_neg(a)
    } else {
        Some(a)
    }
}

/// The largest integer not above the value.
pub open spec fn rat_floor_spec(a: (int, int)) -> Option<(int, int)> {
    if a.0 >= 0 {
        Some((a.0 / a.1, 1))
    } else {
        Some((-((-a.0 + a.1 - 1) / a.1), 1))
    }
}

/// Round a rational down to an integer.
pub fn rat_floor(a: Rat) -> (r: Option<Rat>)
    requires
        rat_ok(a),
    ensures
        match r {
            Some(v) => rat_floor_spec(rat_v(a)) == Some(rat_v(v)) && rat_ok(v),
            None => rat_floor_spec(rat_v(a)) is None,
        },
{
    if a.num >= 0 {
        let q: u64 = (a.num as u64) / a.den;
        proof {
            lemma_div_le(a.num as int, a.den as int);
        }
        Some(Rat { num: q as i64, den: 1 })
    } else {
        let mag: u128 = if a.num == i64::MIN {
            0x8000_0000_0000_0000u128
        } else {
            (-a.num) as u128
        };
        let q: u128 = (mag + (a.den as u128) - 1) / (a.den as u128);
        proof {
            let m = mag as int;
            let d = a.den as int;
            vstd::arithmetic::div_mod::lemma_fundamental_div_mod(m + d - 1, d);
            let qq = (m + d - 1) / d;
            if qq > m {
                assert(d * qq >= d * (m + 1)) by (nonlinear_arith)
                    requires
                        d >= 1,
                        qq >= m + 1,
                ;
                assert(d * (m + 1) == d * m + d) by (nonlinear_arith);
                assert(d * m >= m) by (nonlinear_arith)
                    requires
                        d >= 1,
                        m >= 0,
                ;
                assert(false);
            }
            lemma_div_le(m + d - 1, d);
            assert(q <= mag);
        }
        if q > 0x8000_0000_0000_0000 {
            return None;
        }
        let n: i64 = if q == 0x8000_0000_0000_0000 {
            i64::MIN
        } else {
            -((q as u64) as i64)
        };
        Some(Rat { num: n, den: 1 })
    }
}

/// The smallest integer not below the value.
pub open spec fn rat_ceil_spec(a: (int, int)) -> Option<(int, int)> {
    if a.0 >= 0 {
        if (a.0 + a.1 - 1) / a.1 <= i64::MAX {
            Some(((a.0 + a.1 - 1) / a.1, 1))
        } else {
            None
        }
    } else {
        Some((-((-a.0) / a.1), 1))
    }
}

/// Round a rational up to an integer.
pub fn rat_ceil(a: Rat) -> (r: Option<Rat>)
    requires
        rat_ok(a),
    ensures
        match r {
            Some(v) => rat_ceil_spec(rat_v(a)) == Some(rat_v(v)) && rat_ok(v),
            None => rat_ceil_spec(rat_v(a)) is None,
        },
{
    if a.num >= 0 {
        let q: u128 = ((a.num as u128) + (a.den as u128) - 1) / (a.den as u128);
        proof {
            lemma_div_le(a.num as int + a.den as int - 1, a.den as int);
        }
        if q > 0x7fff_ffff_ffff_ffff {
            return None;
        }
        Some(Rat { num: (q as u64) as i64, den: 1 })
    } else {
        let mag: u128 = if a.num == i64::MIN {
            0x8000_0000_0000_0000u128
        } else {
            (-a.num) as u128
        };
        let q: u128 = mag / (a.den as u128);
        proof {
            lemma_div_le(mag as int, a.den as int);
        }
        let n: i64 = if q == 0x8000_0000_0000_0000 {
            i64::MIN
        } else {
            -((q as u64) as i64)
        };
        Some(Rat { num: n, den: 1 })
    }
}

/// Division by a positive number cannot grow a nonnegative value.
proof fn lemma_div_le(m: int, d: int)
    requires
        m >= 0,
        d >= 1,
    ensures
        0 <= m / d <= m,
{
    vstd::arithmetic::div_mod::lemma_fundamental_div_mod(m, d);
    let q = m / d;
    if q > m {
        assert(d * q >= d * (m + 1)) by (nonlinear_arith)
            requires
                d >= 1,
                q >= m + 1,
        ;
        assert(d * (m + 1) == d * m + d) by (nonlinear_arith);
        assert(d * m >= m) by (nonlinear_arith)
            requires
                d >= 1,
                m >= 0,
        ;
        assert(false);
    }
    if q < 0 {
        assert(d * q <= -d) by (nonlinear_arith)
            requires
                d >= 1,
                q <= -1,
        ;
        assert(false);
    }
}

/// The exact square root: defined only when the value is the square of a
/// rational with the same denominator.
pub open spec fn rat_sqrt_spec(a: (int, int)) -> Option<(int, int)> {
    if a.0 < 0 {
        None
    } else {
        let pdt = a.0 * a.1;
        if exists|t: int| 0 <= t && #[trigger] (t * t) == pdt {
            let t = choose|t: int| 0 <= t && #[trigger] (t * t) == pdt;
            if t <= i64::MAX {
                Some((t, a.1))
            } else {
                None
            }
        } else {
            None
        }
    }
}

/// Two equal squares of nonnegative numbers have equal roots.
proof fn lemma_sqrt_unique(x: int, y: int)
    requires
        0 <= x,
        0 <= y,
        x * x == y * y,
    ensures
        x == y,
{
    assert(x == y) by (nonlinear_arith)
        requires
            0 <= x,
            0 <= y,
            x * x == y * y,
    ;
}

/// The integer square root, rounded down.
fn isqrt_u128(p: u128) -> (r: u64)
    ensures
        (r as int) * (r as int) <= p,
        (r as int + 1) * (r as int + 1) > p,
{
    let mut lo: u64 = 0;
    let mut hi: u64 = 0xffff_ffff_ffff_ffff;
    proof {
        assert(0x10000000000000000int * 0x10000000000000000int > u128::MAX) by (nonlinear_arith);
    }
    while lo < hi
        invariant
            lo <= hi,
            (lo as int) * (lo as int) <= p,
            (hi as int + 1) * (hi as int + 1) > p,
        decreases hi - lo,
    {
        let mid: u64 = hi - (hi - lo) / 2;
        proof {
            assert((mid as int) * (mid as int) <= u128::MAX) by (nonlinear_arith)
                requires
                    mid <= u64::MAX,
            ;
        }
        let sq: u128 = (mid as u128) * (mid as u128);
        if sq <= p {
            lo = mid;
        } else {
            hi = mid - 1;
            proof {
                assert((mid as int) * (mid as int) > p);
            }
        }
    }
    lo
}

/// The exact square root of a rational, if there is one.
pub fn rat_sqrt(a: Rat) -> (r: Option<Rat>)
    requires
        rat_ok(a),
    ensures
        match r {
            Some(v) => rat_sqrt_spec(rat_v(a)) == Some(rat_v(v)) && rat_ok(v),
            None => rat_sqrt_spec(rat_v(a)) is None,
        },
{
    if a.num < 0 {
        return None;
    }
    proof {
        lemma_i64_u64_prod_bounds(a.num, a.den);
    }
    let pdt: u128 = ((a.num as u64) as u128) * (a.den as u128);
    let t = isqrt_u128(pdt);
    proof {
        assert((t as int) * (t as int) <= u128::MAX) by (nonlinear_arith)
            requires
                t <= u64::MAX,
        ;
    }
    let sq: u128 = (t as u128) * (t as u128);
    if sq != pdt {
        proof {
            if exists|w: int| 0 <= w && #[trigger] (w * w) == (rat_v(a).0 * rat_v(a).1) {
                let w = choose|w: int| 0 <= w && #[trigger] (w * w) == (rat_v(a).0 * rat_v(a).1);
                assert(w * w == pdt);
                if w <= t {
                    assert(w * w <= (t as int) * (t as int)) by (nonlinear_arith)
                        requires
                            0 <= w <= t as int,
                    ;
                } else {
                    assert(w * w >= (t as int + 1) * (t as int + 1)) by (nonlinear_arith)
                        requires
                            w >= t as int + 1,
                            0 <= t as int,
                    ;
                }
                assert(false);
            }
        }
        return None;
    }
    proof {
        assert(0 <= t as int && (t as int) * (t as int) == rat_v(a).0 * rat_v(a).1);
        let w = choose|w: int| 0 <= w && #[trigger] (w * w) == (rat_v(a).0 * rat_v(a).1);
        lemma_sqrt_unique(w, t as int);
    }
    if t > 0x7fff_ffff_ffff_ffff {
        return None;
    }
    Some(Rat { num: t as i64, den: a.den })
}



/// The number of consecutive spaces from `from` on.
pub open spec fn space_run(s: Seq<char>, from: int) -> int
    decreases s.len() - from,
{
    if from < 0 || from >= s.len() || s[from] != ' ' {
        0
    } else {
        1 + space_run(s, from + 1)
    }
}

/// Count consecutive spaces from a position.
pub fn space_run_exec(s: &[char], from: usize) -> (r: usize)
    requires
        from <= s@.len(),
    ensures
        r == space_run(s@, from as int),
        from + r <= s@.len(),
    decreases s@.len() - from,
{
    if from >= s.len() {
        return 0;
    }
    if s[from] != ' ' {
        return 0;
    }
    let rest = space_run_exec(s, from + 1);
    rest + 1
}

/// A number literal at `pos`: digits, with an optional fraction part.
/// The value is `num / 10^scale`; `None` when malformed or out of range.
pub open spec fn sp_number(s: Seq<char>, pos: int) -> Option<((int, int), int)> {
    let d1 = digit_run(s, pos);
    if d1 == 0 && !(pos < s.len() && s[pos] == '.') {
        None
    } else {
        let after1 = pos + d1;
        if after1 < s.len() && s[after1] == '.' {
            let d2 = digit_run(s, after1 + 1);
            if d1 + d2 == 0 || d2 > 18 {
                None
            } else {
                let digits = s.subrange(pos, after1) + s.subrange(after1 + 1, after1 + 1 + d2);
                if chars_value(digits) <= i64::MAX {
                    Some(
                        ((chars_value(digits) as int, crate::currency::pow10(d2 as nat) as int),
                        after1 + 1 + d2),
                    )
                } else {
                    None
                }
            }
        } else {
            if chars_value(s.subrange(pos, after1)) <= i64::MAX {
                Some(((chars_value(s.subrange(pos, after1)) as int, 1int), after1))
            } else {
                None
            }
        }
    }
}

/// Read a number literal.
pub fn sp_number_exec(s: &[char], pos: usize) -> (r: Option<(Rat, usize)>)
    requires
        pos <= s@.len(),
    ensures
        match r {
            Some((v, p)) => sp_number(s@, pos as int) == Some(((rat_v(v)), p as int)) && rat_ok(v)
                && pos < p <= s@.len(),
            None => sp_number(s@, pos as int) is None,
        },
{
    let n = s.len();
    let d1 = digit_run_exec(s, pos);
    if d1 == 0 && !(pos < n && s[pos] == '.') {
        return None;
    }
    let after1 = pos + d1;
    proof {
        crate::currency::lemma_digit_run_digits(s@, pos as int);
    }
    if after1 < s.len() && s[after1] == '.' {
        let d2 = digit_run_exec(s, after1 + 1);
        if d1 + d2 == 0 || d2 > 18 {
            return None;
        }
        proof {
            crate::currency::lemma_digit_run_digits(s@, after1 + 1);
        }
        let mut digits: Vec<char> = Vec::new();
        let whole_sl: &[char] = &s[pos..after1];
        let frac_sl: &[char] = &s[after1 + 1..after1 + 1 + d2];
        digits.extend_from_slice(whole_sl);
        digits.extend_from_slice(frac_sl);
        proof {
            assert(digits@ =~= s@.subrange(pos as int, after1 as int) + s@.subrange(
                after1 + 1,
                after1 + 1 + d2,
            ));
            assert(crate::text::all_digits(digits@));
            assert(digits@.len() >= 1);
        }
        match parse_digits_u64_pub(digits.as_slice()) {
            Some(v) => {
                if v > 0x7fff_ffff_ffff_ffff {
                    return None;
                }
                let den = crate::currency::pow10_exec(d2 as u32);
                proof {
                    lemma_pow10_pos_pub(d2 as nat);
                }
                Some((Rat { num: v as i64, den }, after1 + 1 + d2))
            },
            None => None,
        }
    } else {
        let whole_sl: &[char] = &s[pos..after1];
        proof {
            assert(whole_sl@ =~= s@.subrange(pos as int, after1 as int));
            assert(crate::text::all_digits(whole_sl@));
            assert(d1 >= 1);
        }
        match parse_digits_u64_pub(whole_sl) {
            Some(v) => {
                if v > 0x7fff_ffff_ffff_ffff {
                    return None;
                }
                Some((Rat { num: v as i64, den: 1 }, after1))
            },
            None => None,
        }
    }
}

/// A digit string read as a `u64`, digits required.
pub fn parse_digits_u64_pub(s: &[char]) -> (r: Option<u64>)
    requires
        crate::text::all_digits(s@),
        s@.len() >= 1,
    ensures
        match r {
            Some(v) => v == chars_value(s@) && chars_value(s@) <= u64::MAX,
            None => chars_value(s@) > u64::MAX,
        },
{
    let mut acc: u64 = 0;
    let mut i: usize = 0;
    while i < s.len()
        invariant
            i <= s@.len(),
            crate::text::all_digits(s@),
            acc == chars_value(s@.subrange(0, i as int)),
        decreases s@.len() - i,
    {
        let c = s[i];
        let u = crate::text::char_code(c);
        let d: u64 = (u - 48) as u64;
        let wide: u128 = (acc as u128) * 10 + (d as u128);
        proof {
            assert(is_digit(s@[i as int]));
            assert(d == crate::text::digit_val(s@[i as int]));
            let pref = s@.subrange(0, i + 1);
            assert(pref.drop_last() =~= s@.subrange(0, i as int));
            assert(pref.last() == s@[i as int]);
            assert(chars_value(pref) == acc * 10 + d);
        }
        if wide > 0xffff_ffff_ffff_ffff {
            proof {
                crate::text::lemma_value_prefix_le(s@, i + 1);
            }
            return None;
        }
        acc = wide as u64;
        i += 1;
    }
    proof {
        assert(s@.subrange(0, s@.len() as int) =~= s@);
    }
    Some(acc)
}

/// Ten to any power is positive.
proof fn lemma_pow10_pos_pub(n: nat)
    ensures
        crate::currency::pow10(n) >= 1,
    decreases n,
{
    if n > 0 {
        lemma_pow10_pos_pub((n - 1) as nat);
    }
}

/// An additive expression: terms joined by `+` and `-`.
pub open spec fn sp_expr(s: Seq<char>, pos: int, fuel: nat) -> Option<((int, int), int)>
    decreases fuel,
{
    if fuel == 0 {
        None
    } else {
        match sp_term(s, pos, (fuel - 1) as nat) {
            None => None,
            Some((v, p)) => sp_expr_tail(s, v, p, (fuel - 1) as nat),
        }
    }
}

/// The rest of an additive expression after its first term.
pub open spec fn sp_expr_tail(s: Seq<char>, acc: (int, int), pos: int, fuel: nat) -> Option<
    ((int, int), int),
>
    decreases fuel,
{
    if fuel == 0 {
        None
    } else {
        let p = pos + space_run(s, pos);
        if p < s.len() && (s[p] == '+' || s[p] == '-') {
            match sp_term(s, p + 1, (fuel - 1) as nat) {
                None => None,
                Some((w, p2)) => match (if s[p] == '+' {
                    rat_add_spec(acc, w)
                } else {
                    rat_sub_spec(acc, w)
                }) {
                    None => None,
                    Some(v) => sp_expr_tail(s, v, p2, (fuel - 1) as nat),
                },
            }
        } else {
            Some((acc, pos))
        }
    }
}

/// A multiplicative term: factors joined by `*` and `/`.
pub open spec fn sp_term(s: Seq<char>, pos: int, fuel: nat) -> Option<((int, int), int)>
    decreases fuel,
{
    if fuel == 0 {
        None
    } else {
        match sp_factor(s, pos, (fuel - 1) as nat) {
            None => None,
            Some((v, p)) => sp_term_tail(s, v, p, (fuel - 1) as nat),
        }
    }
}

/// The rest of a term after its first factor.
pub open spec fn sp_term_tail(s: Seq<char>, acc: (int, int), pos: int, fuel: nat) -> Option<
    ((int, int), int),
>
    decreases fuel,
{
    if fuel == 0 {
        None
    } else {
        let p = pos + space_run(s, pos);
        if p < s.len() && (s[p] == '*' || s[p] == '/') {
            match sp_factor(s, p + 1, (fuel - 1) as nat) {
                None => None,
                Some((w, p2)) => match (if s[p] == '*' {
                    rat_mul_spec(acc, w)
                } else {
                    rat_div_spec(acc, w)
                }) {
                    None => None,
                    Some(v) => sp_term_tail(s, v, p2, (fuel - 1) as nat),
                },
            }
        } else {
            Some((acc, pos))
        }
    }
}

/// The function a name stands for, applied to an exact argument. The
/// sine, tangent and exponential have exact values at zero, the cosine
/// too, and the logarithms at one; elsewhere they give none.
pub open spec fn apply_func(name: int, v: (int, int)) -> Option<(int, int)> {
    if name == 0 {
        rat_sqrt_spec(v)
    } else if name == 1 {
        rat_abs_spec(v)
    } else if name == 2 {
        rat_floor_spec(v)
    } else if name == 3 {
        rat_ceil_spec(v)
    } else if name == 4 {
        if v.0 == 0 {
            Some((0, 1))
        } else {
            None
        }
    } else if name == 5 {
        if v.0 == 0 {
            Some((1, 1))
        } else {
            None
        }
    } else if name == 6 {
        if v.0 == v.1 {
            Some((0, 1))
        } else {
            None
        }
    } else {
        None
    }
}

/// One factor: a number, a parenthesised expression, a negation, or a
/// function applied to a parenthesised expression. The functions without
/// an exact value give `None`.
pub open spec fn sp_factor(s: Seq<char>, pos: int, fuel: nat) -> Option<((int, int), int)>
    decreases fuel,
{
    if fuel == 0 {
        None
    } else {
        let p = pos + space_run(s, pos);
        if p >= s.len() {
            None
        } else if s[p] == '(' {
            match sp_expr(s, p + 1, (fuel - 1) as nat) {
                None => None,
                Some((v, p2)) => {
                    let q = p2 + space_run(s, p2);
                    if q < s.len() && s[q] == ')' {
                        Some((v, q + 1))
                    } else {
                        None
                    }
                },
            }
        } else if s[p] == '-' {
            match sp_factor(s, p + 1, (fuel - 1) as nat) {
                None => None,
                Some((v, p2)) => match rat_neg_spec(v) {
                    None => None,
                    Some(w) => Some((w, p2)),
                },
            }
        } else if is_digit(s[p]) || s[p] == '.' {
            sp_number(s, p)
        } else {
            sp_func(s, p, (fuel - 1) as nat)
        }
    }
}

/// The length of the function name at `p`, with its table position, if
/// one starts there.
pub open spec fn func_at(s: Seq<char>, p: int) -> Option<(int, int)> {
    let tail = s.subrange(p, s.len() as int);
    if starts_with(tail, "sqrt"@) {
        Some((4, 0))
    } else if starts_with(tail, "abs"@) {
        Some((3, 1))
    } else if starts_with(tail, "floor"@) {
        Some((5, 2))
    } else if starts_with(tail, "ceil"@) {
        Some((4, 3))
    } else if starts_with(tail, "sin"@) {
        Some((3, 4))
    } else if starts_with(tail, "cos"@) {
        Some((3, 5))
    } else if starts_with(tail, "tan"@) {
        Some((3, 4))
    } else if starts_with(tail, "log"@) {
        Some((3, 6))
    } else if starts_with(tail, "ln"@) {
        Some((2, 6))
    } else if starts_with(tail, "exp"@) {
        Some((3, 5))
    } else {
        None
    }
}

/// A function application: a known name, then a parenthesised argument.
pub open spec fn sp_func(s: Seq<char>, p: int, fuel: nat) -> Option<((int, int), int)>
    decreases fuel,
{
    if fuel == 0 {
        None
    } else {
        match func_at(s, p) {
            None => None,
            Some((namelen, which)) => {
                let q = p + namelen + space_run(s, p + namelen);
                if q < s.len() && s[q] == '(' {
                    match sp_expr(s, q + 1, (fuel - 1) as nat) {
                        None => None,
                        Some((v, p2)) => {
                            let q2 = p2 + space_run(s, p2);
                            if q2 < s.len() && s[q2] == ')' {
                                match apply_func(which, v) {
                                    None => None,
                                    Some(w) => Some((w, q2 + 1)),
                                }
                            } else {
                                None
                            }
                        },
                    }
                } else {
                    None
                }
            },
        }
    }
}



/// Evaluate an additive expression.
pub fn sp_expr_exec(s: &[char], pos: usize, fuel: u128) -> (r: Option<(Rat, usize)>)
    requires
        pos <= s@.len(),
    ensures
        match r {
            Some((v, p)) => sp_expr(s@, pos as int, fuel as nat) == Some((rat_v(v), p as int))
                && rat_ok(v) && p <= s@.len(),
            None => sp_expr(s@, pos as int, fuel as nat) is None,
        },
    decreases fuel,
{
    if fuel == 0 {
        return None;
    }
    match sp_term_exec(s, pos, fuel - 1) {
        None => None,
        Some((v, p)) => sp_expr_tail_exec(s, v, p, fuel - 1),
    }
}

/// Evaluate the rest of an additive expression.
pub fn sp_expr_tail_exec(s: &[char], acc: Rat, pos: usize, fuel: u128) -> (r: Option<
    (Rat, usize),
>)
    requires
        pos <= s@.len(),
        rat_ok(acc),
    ensures
        match r {
            Some((v, p)) => sp_expr_tail(s@, rat_v(acc), pos as int, fuel as nat) == Some(
                (rat_v(v), p as int),
            ) && rat_ok(v) && p <= s@.len(),
            None => sp_expr_tail(s@, rat_v(acc), pos as int, fuel as nat) is None,
        },
    decreases fuel,
{
    if fuel == 0 {
        return None;
    }
    let n = s.len();
    let ws = space_run_exec(s, pos);
    let p = pos + ws;
    if p < n && (s[p] == '+' || s[p] == '-') {
        match sp_term_exec(s, p + 1, fuel - 1) {
            None => None,
            Some((w, p2)) => {
                let step: Option<Rat> = if s[p] == '+' {
                    rat_add(acc, w)
                } else {
                    rat_sub(acc, w)
                };
                match step {
                    None => None,
                    Some(v) => sp_expr_tail_exec(s, v, p2, fuel - 1),
                }
            },
        }
    } else {
        Some((acc, pos))
    }
}

/// Evaluate a multiplicative term.
pub fn sp_term_exec(s: &[char], pos: usize, fuel: u128) -> (r: Option<(Rat, usize)>)
    requires
        pos <= s@.len(),
    ensures
        match r {
            Some((v, p)) => sp_term(s@, pos as int, fuel as nat) == Some((rat_v(v), p as int))
                && rat_ok(v) && p <= s@.len(),
            None => sp_term(s@, pos as int, fuel as nat) is None,
        },
    decreases fuel,
{
    if fuel == 0 {
        return None;
    }
    match sp_factor_exec(s, pos, fuel - 1) {
        None => None,
        Some((v, p)) => sp_term_tail_exec(s, v, p, fuel - 1),
    }
}

/// Evaluate the rest of a term.
pub fn sp_term_tail_exec(s: &[char], acc: Rat, pos: usize, fuel: u128) -> (r: Option<
    (Rat, usize),
>)
    requires
        pos <= s@.len(),
        rat_ok(acc),
    ensures
        match r {
            Some((v, p)) => sp_term_tail(s@, rat_v(acc), pos as int, fuel as nat) == Some(
                (rat_v(v), p as int),
            ) && rat_ok(v) && p <= s@.len(),
            None => sp_term_tail(s@, rat_v(acc), pos as int, fuel as nat) is None,
        },
    decreases fuel,
{
    if fuel == 0 {
        return None;
    }
    let n = s.len();
    let ws = space_run_exec(s, pos);
    let p = pos + ws;
    if p < n && (s[p] == '*' || s[p] == '/') {
        match sp_factor_exec(s, p + 1, fuel - 1) {
            None => None,
            Some((w, p2)) => {
                let step: Option<Rat> = if s[p] == '*' {
                    rat_mul(acc, w)
                } else {
                    rat_div(acc, w)
                };
                match step {
                    None => None,
                    Some(v) => sp_term_tail_exec(s, v, p2, fuel - 1),
                }
            },
        }
    } else {
        Some((acc, pos))
    }
}

/// Evaluate one factor.
pub fn sp_factor_exec(s: &[char], pos: usize, fuel: u128) -> (r: Option<(Rat, usize)>)
    requires
        pos <= s@.len(),
    ensures
        match r {
            Some((v, p)) => sp_factor(s@, pos as int, fuel as nat) == Some((rat_v(v), p as int))
                && rat_ok(v) && p <= s@.len(),
            None => sp_factor(s@, pos as int, fuel as nat) is None,
        },
    decreases fuel,
{
    if fuel == 0 {
        return None;
    }
    let n = s.len();
    let ws = space_run_exec(s, pos);
    let p = pos + ws;
    if p >= n {
        return None;
    }
    if s[p] == '(' {
        match sp_expr_exec(s, p + 1, fuel - 1) {
            None => None,
            Some((v, p2)) => {
                let ws2 = space_run_exec(s, p2);
                let q = p2 + ws2;
                if q < s.len() && s[q] == ')' {
                    Some((v, q + 1))
                } else {
                    None
                }
            },
        }
    } else if s[p] == '-' {
        match sp_factor_exec(s, p + 1, fuel - 1) {
            None => None,
            Some((v, p2)) => {
                match rat_neg(v) {
                    None => None,
                    Some(w) => Some((w, p2)),
                }
            },
        }
    } else {
        let u = crate::text::char_code(s[p]);
        if (48 <= u && u <= 57) || s[p] == '.' {
            proof {
                assert(is_digit(s@[p as int]) || s@[p as int] == '.');
            }
            sp_number_exec(s, p)
        } else {
            proof {
                assert(!is_digit(s@[p as int]));
            }
            sp_func_exec(s, p, fuel - 1)
        }
    }
}

/// Evaluate a function application.
pub fn sp_func_exec(s: &[char], p: usize, fuel: u128) -> (r: Option<(Rat, usize)>)
    requires
        p <= s@.len(),
    ensures
        match r {
            Some((v, p2)) => sp_func(s@, p as int, fuel as nat) == Some((rat_v(v), p2 as int))
                && rat_ok(v) && p2 <= s@.len(),
            None => sp_func(s@, p as int, fuel as nat) is None,
        },
    decreases fuel,
{
    if fuel == 0 {
        return None;
    }
    let n = s.len();
    let tail: &[char] = &s[p..n];
    proof {
        reveal_strlit("sqrt");
        reveal_strlit("abs");
        reveal_strlit("floor");
        reveal_strlit("ceil");
        reveal_strlit("sin");
        reveal_strlit("cos");
        reveal_strlit("tan");
        reveal_strlit("log");
        reveal_strlit("ln");
        reveal_strlit("exp");
        assert(tail@ =~= s@.subrange(p as int, s@.len() as int));
    }
    let mut namelen: usize = 0;
    let mut which: usize = 0;
    let mut found = false;
    if starts_with_chars(tail, crate::text::str_chars("sqrt").as_slice()) {
        namelen = 4;
        which = 0;
        found = true;
    } else if starts_with_chars(tail, crate::text::str_chars("abs").as_slice()) {
        namelen = 3;
        which = 1;
        found = true;
    } else if starts_with_chars(tail, crate::text::str_chars("floor").as_slice()) {
        namelen = 5;
        which = 2;
        found = true;
    } else if starts_with_chars(tail, crate::text::str_chars("ceil").as_slice()) {
        namelen = 4;
        which = 3;
        found = true;
    } else if starts_with_chars(tail, crate::text::str_chars("sin").as_slice()) {
        namelen = 3;
        which = 4;
        found = true;
    } else if starts_with_chars(tail, crate::text::str_chars("cos").as_slice()) {
        namelen = 3;
        which = 5;
        found = true;
    } else if starts_with_chars(tail, crate::text::str_chars("tan").as_slice()) {
        namelen = 3;
        which = 4;
        found = true;
    } else if starts_with_chars(tail, crate::text::str_chars("log").as_slice()) {
        namelen = 3;
        which = 6;
        found = true;
    } else if starts_with_chars(tail, crate::text::str_chars("ln").as_slice()) {
        namelen = 2;
        which = 6;
        found = true;
    } else if starts_with_chars(tail, crate::text::str_chars("exp").as_slice()) {
        namelen = 3;
        which = 5;
        found = true;
    }
    if !found {
        proof {
            assert(func_at(s@, p as int) is None);
        }
        return None;
    }
    proof {
        assert(func_at(s@, p as int) == Some((namelen as int, which as int)));
        assert(p + namelen <= s@.len());
    }
    let ws = space_run_exec(s, p + namelen);
    let q = p + namelen + ws;
    if q < s.len() && s[q] == '(' {
        match sp_expr_exec(s, q + 1, fuel - 1) {
            None => None,
            Some((v, p2)) => {
                let ws2 = space_run_exec(s, p2);
                let q2 = p2 + ws2;
                if q2 < s.len() && s[q2] == ')' {
                    let applied: Option<Rat> = if which == 0 {
                        rat_sqrt(v)
                    } else if which == 1 {
                        rat_abs(v)
                    } else if which == 2 {
                        rat_floor(v)
                    } else if which == 3 {
                        rat_ceil(v)
                    } else if which == 4 {
                        if v.num == 0 {
                            Some(Rat { num: 0, den: 1 })
                        } else {
                            None
                        }
                    } else if which == 5 {
                        if v.num == 0 {
                            Some(Rat { num: 1, den: 1 })
                        } else {
                            None
                        }
                    } else if which == 6 {
                        if v.num >= 0 && (v.num as u64) == v.den {
                            Some(Rat { num: 0, den: 1 })
                        } else {
                            None
                        }
                    } else {
                        None
                    };
                    match applied {
                        None => None,
                        Some(w) => Some((w, q2 + 1)),
                    }
                } else {
                    None
                }
            },
        }
    } else {
        None
    }
}

/// The fuel that always suffices for a query of this length.
pub open spec fn fuel_for(s: Seq<char>) -> nat {
    (3 * s.len() + 9) as nat
}

/// The calculator's value for a query: the expression's exact value,
/// provided the whole query is consumed.
pub open spec fn calc_eval_spec(q: Seq<char>) -> Option<(int, int)> {
    match sp_expr(q, 0, fuel_for(q)) {
        Some((v, p)) => {
            if p + space_run(q, p) == q.len() {
                Some(v)
            } else {
                None
            }
        },
        None => None,
    }
}

/// Evaluate a whole query.
pub fn calc_eval(q: &[char]) -> (r: Option<Rat>)
    ensures
        match r {
            Some(v) => calc_eval_spec(q@) == Some(rat_v(v)) && rat_ok(v),
            None => calc_eval_spec(q@) is None,
        },
{
    let n = q.len();
    let fuel: u128 = 3 * (n as u128) + 9;
    match sp_expr_exec(q, 0, fuel) {
        Some((v, p)) => {
            let ws = space_run_exec(q, p);
            if p + ws == n {
                Some(v)
            } else {
                None
            }
        },
        None => None,
    }
}



/// The six fraction digits of a value below a million, most significant
/// first.
pub open spec fn pad6(m: int) -> Seq<char> {
    seq![
        digit_char(((m / 100000) % 10) as nat),
        digit_char(((m / 10000) % 10) as nat),
        digit_char(((m / 1000) % 10) as nat),
        digit_char(((m / 100) % 10) as nat),
        digit_char(((m / 10) % 10) as nat),
        digit_char((m % 10) as nat),
    ]
}

/// The digits with trailing zeros removed.
pub open spec fn strip_zeros(s: Seq<char>) -> Seq<char>
    decreases s.len(),
{
    if s.len() == 0 {
        s
    } else if s.last() == '0' {
        strip_zeros(s.drop_last())
    } else {
        s
    }
}

/// The displayed form of an exact value: an integer when the denominator
/// divides the numerator, else up to six fraction digits, rounded toward
/// zero.
pub open spec fn rat_display_spec(a: (int, int)) -> Seq<char>
    recommends
        a.1 >= 1,
{
    let neg = a.0 < 0;
    let mag = if a.0 < 0 {
        -a.0
    } else {
        a.0
    };
    let sign: Seq<char> = if neg {
        seq!['-']
    } else {
        Seq::empty()
    };
    if mag % a.1 == 0 {
        sign + digits_of((mag / a.1) as nat)
    } else {
        let scaled = mag * 1000000 / a.1;
        let whole = scaled / 1000000;
        let frac = scaled % 1000000;
        sign + digits_of(whole as nat) + seq!['.'] + strip_zeros(pad6(frac))
    }
}

/// Format an exact value for the calculator row.
pub fn rat_display(a: Rat) -> (r: Vec<char>)
    requires
        rat_ok(a),
        a.num > i64::MIN,
    ensures
        r@ == rat_display_spec(rat_v(a)),
{
    let neg = a.num < 0;
    let mag: u64 = if a.num < 0 {
        (-a.num) as u64
    } else {
        a.num as u64
    };
    let mut out: Vec<char> = Vec::new();
    if neg {
        out.push('-');
    }
    let rem: u64 = mag % a.den;
    if rem == 0 {
        let mut digits = crate::text::u64_digits(mag / a.den);
        out.append(&mut digits);
        proof {
            assert(out@ =~= rat_display_spec(rat_v(a)));
        }
        return out;
    }
    let scaled_wide: u128 = (mag as u128) * 1000000 / (a.den as u128);
    proof {
        assert((mag as int) * 1000000 <= u128::MAX) by (nonlinear_arith)
            requires
                mag <= u64::MAX,
        ;
        lemma_div_le(mag as int * 1000000, a.den as int);
    }
    let whole: u128 = scaled_wide / 1000000;
    let frac: u64 = (scaled_wide % 1000000) as u64;
    proof {
        lemma_div_le(scaled_wide as int, 1000000);
        assert(scaled_wide as int / 1000000 <= mag as int * 1000000) by {
            lemma_div_le(mag as int * 1000000, a.den as int);
            lemma_div_le(scaled_wide as int, 1000000);
        }
        assert(whole as int == (mag as int * 1000000 / a.den as int) / 1000000);
        assert(whole <= u64::MAX) by {
            assert(mag as int * 1000000 / a.den as int / 1000000 <= mag as int) by {
                vstd::arithmetic::div_mod::lemma_div_multiples_vanish_fancy(
                    mag as int,
                    0,
                    1000000,
                );
                assert(mag as int * 1000000 / 1000000 == mag as int);
                lemma_div_le_general(mag as int * 1000000, a.den as int, 1000000);
            }
        }
    }
    let mut digits = crate::text::u64_digits(whole as u64);
    out.append(&mut digits);
    out.push('.');
    let mut frac6: Vec<char> = Vec::new();
    frac6.push((((frac / 100000) % 10) as u8 + 48) as char);
    frac6.push((((frac / 10000) % 10) as u8 + 48) as char);
    frac6.push((((frac / 1000) % 10) as u8 + 48) as char);
    frac6.push((((frac / 100) % 10) as u8 + 48) as char);
    frac6.push((((frac / 10) % 10) as u8 + 48) as char);
    frac6.push(((frac % 10) as u8 + 48) as char);
    proof {
        assert(frac6@ =~= pad6(frac as int));
    }
    while frac6.len() > 0 && frac6[frac6.len() - 1] == '0'
        invariant
            strip_zeros(frac6@) == strip_zeros(pad6(frac as int)),
        decreases frac6@.len(),
    {
        let ghost f0 = frac6@;
        frac6.pop();
        proof {
            assert(frac6@ =~= f0.drop_last());
        }
    }
    proof {
        assert(strip_zeros(frac6@) == frac6@);
    }
    out.append(&mut frac6);
    proof {
        assert(out@ =~= rat_display_spec(rat_v(a)));
    }
    out
}

/// Dividing by more divides by no less.
proof fn lemma_div_le_general(x: int, d: int, e: int)
    requires
        x >= 0,
        d >= 1,
        e >= 1,
    ensures
        x / d / e <= x / e,
{
    lemma_div_le(x, d);
    vstd::arithmetic::div_mod::lemma_div_is_ordered(x / d, x, e);
}

/// The calculator row for a query: the displayed exact value, when the
/// query evaluates to one.
pub open spec fn calc_row_spec(q: Seq<char>) -> Option<Seq<char>> {
    match calc_eval_spec(q) {
        Some(v) => {
            if v.0 > i64::MIN {
                Some(rat_display_spec(v))
            } else {
                None
            }
        },
        None => None,
    }
}

/// The calculator row for a query, if any.
pub fn calc_row(q: &[char]) -> (r: Option<Vec<char>>)
    ensures
        match r {
            Some(v) => calc_row_spec(q@) == Some(v@),
            None => calc_row_spec(q@) is None,
        },
{
    match calc_eval(q) {
        Some(v) => {
            if v.num == i64::MIN {
                return None;
            }
            Some(rat_display(v))
        },
        None => None,
    }
}

} // verus!
