//! Checked integer arithmetic for pool calculations.
//!
//! Every operation either returns the mathematically exact result or a
//! typed error; nothing wraps and nothing truncates silently.

use vstd::arithmetic::div_mod::lemma_fundamental_div_mod;
use vstd::arithmetic::div_mod::lemma_fundamental_div_mod_converse;
use vstd::prelude::*;

verus! {

/// Fixed-point scale with eighteen decimals.
pub const PRECISION: i128 = 1_000_000_000_000_000_000;

/// Number of basis points in one whole.
pub const BPS: u32 = 10_000;

/// The ways in which an arithmetic operation can fail.
#[derive(Debug, Clone, Copy, PartialEq, Eq, Structural)]
pub enum MathError {
    Overflow,
    Underflow,
    DivisionByZero,
    InvalidInput,
}

/// Whether `v` can be held in an `i128`.
pub open spec fn fits_i128(v: int) -> bool {
    i128::MIN <= v <= i128::MAX
}

/// The quotient of `a` by `b` rounded toward zero, for `b != 0`.
pub open spec fn trunc_div(a: int, b: int) -> int {
    if a >= 0 && b > 0 {
        a / b
    } else if a < 0 && b < 0 {
        (-a) / (-b)
    } else if a < 0 {
        -((-a) / b)
    } else {
        -(a / (-b))
    }
}

/// `a * b / c` rounded down, for non-negative `a`, `b` and positive `c`.
pub open spec fn mul_div_floor(a: int, b: int, c: int) -> int {
    (a * b) / c
}

/// `a * b / c` rounded up, for non-negative `a`, `b` and positive `c`.
pub open spec fn mul_div_ceil(a: int, b: int, c: int) -> int {
    if (a * b) % c == 0 {
        (a * b) / c
    } else {
        (a * b) / c + 1
    }
}

/// What `mul_div_down` returns on each input.
pub open spec fn spec_mul_div_down(a: int, b: int, c: int) -> Result<i128, MathError> {
    if c == 0 {
        Err(MathError::DivisionByZero)
    } else if a < 0 || b < 0 || c < 0 {
        Err(MathError::InvalidInput)
    } else if a == 0 || b == 0 {
        Ok(0i128)
    } else if mul_div_floor(a, b, c) > i128::MAX {
        Err(MathError::Overflow)
    } else {
        Ok(mul_div_floor(a, b, c) as i128)
    }
}

/// What `mul_div_up` returns on each input.
pub open spec fn spec_mul_div_up(a: int, b: int, c: int) -> Result<i128, MathError> {
    if c == 0 {
        Err(MathError::DivisionByZero)
    } else if a < 0 || b < 0 || c < 0 {
        Err(MathError::InvalidInput)
    } else if a == 0 || b == 0 {
        Ok(0i128)
    } else if mul_div_ceil(a, b, c) > i128::MAX {
        Err(MathError::Overflow)
    } else {
        Ok(mul_div_ceil(a, b, c) as i128)
    }
}

/// What `calculate_k` returns on each input.
pub open spec fn spec_calculate_k(reserve_0: int, reserve_1: int) -> Result<i128, MathError> {
    if reserve_0 < 0 || reserve_1 < 0 {
        Err(MathError::InvalidInput)
    } else if reserve_0 * reserve_1 > i128::MAX {
        Err(MathError::Overflow)
    } else {
        Ok((reserve_0 * reserve_1) as i128)
    }
}

/// Whether `r` is the integer square root of `v`: the one natural number
/// whose square is at most `v` while the square of its successor is not.
pub open spec fn is_sqrt_of(r: int, v: int) -> bool {
    0 <= r && r * r <= v < (r + 1) * (r + 1)
}

/// The integer square root of `v`, and zero for every `v <= 0`.
pub open spec fn int_sqrt(v: int) -> int {
    if v <= 0 {
        0
    } else {
        choose|r: int| is_sqrt_of(r, v)
    }
}

/// No number has two integer square roots.
pub proof fn lemma_sqrt_unique(r1: int, r2: int, v: int)
    by (nonlinear_arith)
    requires
        is_sqrt_of(r1, v),
        is_sqrt_of(r2, v),
    ensures
        r1 == r2,
{
    if r1 < r2 {
        assert((r1 + 1) * (r1 + 1) <= r2 * r2);
    }
    if r2 < r1 {
        assert((r2 + 1) * (r2 + 1) <= r1 * r1);
    }
}

/// Every natural number has an integer square root, and `int_sqrt` is it.
pub proof fn lemma_int_sqrt(v: int)
    requires
        v >= 0,
    ensures
        is_sqrt_of(int_sqrt(v), v),
    decreases v,
{
    if v == 0 {
        assert(is_sqrt_of(0, 0));
    } else {
        lemma_int_sqrt(v - 1);
        let r = int_sqrt(v - 1);
        assert(is_sqrt_of(r, v - 1));
        assert(is_sqrt_of(r, v) || is_sqrt_of(r + 1, v)) by (nonlinear_arith)
            requires
                is_sqrt_of(r, v - 1),
        ;
    }
}

/// Adds two values; `Overflow` when the sum leaves the `i128` range.
pub fn safe_add(a: i128, b: i128) -> (r: Result<i128, MathError>)
    ensures
        fits_i128(a + b) ==> r == Ok::<i128, MathError>((a + b) as i128),
        !fits_i128(a + b) ==> r == Err::<i128, MathError>(MathError::Overflow),
{
    match a.checked_add(b) {
        Some(v) => Ok(v),
        None => Err(MathError::Overflow),
    }
}

/// Subtracts `b` from `a`; `Underflow` when the difference leaves the `i128` range.
pub fn safe_sub(a: i128, b: i128) -> (r: Result<i128, MathError>)
    ensures
        fits_i128(a - b) ==> r == Ok::<i128, MathError>((a - b) as i128),
        !fits_i128(a - b) ==> r == Err::<i128, MathError>(MathError::Underflow),
{
    match a.checked_sub(b) {
        Some(v) => Ok(v),
        None => Err(MathError::Underflow),
    }
}

/// Multiplies two values; `Overflow` when the product leaves the `i128` range.
pub fn safe_mul(a: i128, b: i128) -> (r: Result<i128, MathError>)
    ensures
        fits_i128(a * b) ==> r == Ok::<i128, MathError>((a * b) as i128),
        !fits_i128(a * b) ==> r == Err::<i128, MathError>(MathError::Overflow),
{
    match a.checked_mul(b) {
        Some(v) => Ok(v),
        None => Err(MathError::Overflow),
    }
}

/// Divides `a` by `b`, rounding toward zero. A zero divisor gives
/// `DivisionByZero`; the one quotient that does not fit (`i128::MIN / -1`)
/// gives `Overflow`.
pub fn safe_div(a: i128, b: i128) -> (r: Result<i128, MathError>)
    ensures
        b == 0 ==> r == Err::<i128, MathError>(MathError::DivisionByZero),
        b != 0 && !fits_i128(trunc_div(a as int, b as int)) ==> r == Err::<i128, MathError>(
            MathError::Overflow,
        ),
        b != 0 && fits_i128(trunc_div(a as int, b as int)) ==> r == Ok::<i128, MathError>(
            trunc_div(a as int, b as int) as i128,
        ),
{
    if b == 0 {
        return Err(MathError::DivisionByZero);
    }
    match a.checked_div(b) {
        Some(v) => Ok(v),
        None => Err(MathError::Overflow),
    }
}

/// A quotient is at least every `q` whose multiple the dividend reaches.
pub proof fn lemma_quotient_at_least(x: int, q: int, c: int)
    by (nonlinear_arith)
    requires
        c > 0,
        x >= q * c,
    ensures
        x / c >= q,
{
}

proof fn lemma_accumulate(q: int, r: int, tq: int, tr: int, c: int, rest: int, h: int, p: int)
    by (nonlinear_arith)
    requires
        rest == 2 * h + 1,
        q * c + r + (tq * c + tr) * rest == p,
    ensures
        (q + tq) * c + (r + tr) + (tq * c + tr) * (2 * h) == p,
        (q + tq + 1) * c + (r + tr - c) + (tq * c + tr) * (2 * h) == p,
{
}

proof fn lemma_double_term(acc: int, tq: int, tr: int, c: int, h: int, p: int)
    by (nonlinear_arith)
    requires
        acc + (tq * c + tr) * (2 * h) == p,
    ensures
        acc + ((tq + tq) * c + (tr + tr)) * h == p,
        acc + ((tq + tq + 1) * c + (tr + tr - c)) * h == p,
{
}

proof fn lemma_term_is_lower_bound(acc: int, tq: int, tr: int, c: int, h: int, p: int)
    by (nonlinear_arith)
    requires
        acc >= 0,
        tq >= 0,
        tr >= 0,
        c > 0,
        h >= 1,
        acc + (tq * c + tr) * h == p,
    ensures
        p >= tq * c,
{
}

proof fn lemma_acc_is_lower_bound(q: int, r: int, tq: int, tr: int, c: int, h: int, p: int)
    by (nonlinear_arith)
    requires
        q >= 0,
        r >= 0,
        tq >= 0,
        tr >= 0,
        c > 0,
        h >= 0,
        q * c + r + (tq * c + tr) * h == p,
    ensures
        p >= q * c,
{
}

/// Quotient and remainder of `a * b` by `c`, computed by binary
/// multiplication on quotient–remainder pairs so that the product itself is
/// never formed. `None` when the quotient exceeds `i128::MAX`.
fn wide_mul_div_rem(a: u128, b: u128, c: u128) -> (out: Option<(u128, u128)>)
    requires
        0 < c <= i128::MAX,
        a <= i128::MAX,
        b <= i128::MAX,
    ensures
        match out {
            Some((q, m)) => q == (a * b) / (c as int) && m == (a * b) % (c as int) && q
                <= i128::MAX,
            None => (a * b) / (c as int) > i128::MAX,
        },
{
    let max: u128 = 0x7fff_ffff_ffff_ffff_ffff_ffff_ffff_ffff;
    let mut q: u128 = 0;
    let mut r: u128 = 0;
    let mut tq: u128 = a / c;
    let mut tr: u128 = a % c;
    let mut rest: u128 = b;
    let ghost p: int = a * b;
    proof {
        lemma_fundamental_div_mod(a as int, c as int);
        assert(q * c + r + (tq * c + tr) * rest == p) by (nonlinear_arith)
            requires
                q == 0,
                r == 0,
                a == c * tq + tr,
                rest == b,
                p == a * b,
        ;
    }
    while rest > 0
        invariant
            0 < c <= max,
            max == i128::MAX,
            r < c,
            tr < c,
            q <= max,
            tq <= max,
            p == a * b,
            q * c + r + (tq * c + tr) * rest == p,
        decreases rest,
    {
        let half: u128 = rest / 2;
        let ghost acc: int;
        if rest % 2 == 1 {
            let mut r2: u128 = r + tr;
            let mut q2: u128 = q + tq;
            proof {
                lemma_accumulate(
                    q as int,
                    r as int,
                    tq as int,
                    tr as int,
                    c as int,
                    rest as int,
                    half as int,
                    p,
                );
            }
            if r2 >= c {
                r2 = r2 - c;
                q2 = q2 + 1;
            }
            assert(q2 * c + r2 + (tq * c + tr) * (2 * half) == p);
            if q2 > max {
                proof {
                    lemma_acc_is_lower_bound(
                        q2 as int,
                        r2 as int,
                        tq as int,
                        tr as int,
                        c as int,
                        2 * half,
                        p,
                    );
                    lemma_quotient_at_least(p, q2 as int, c as int);
                }
                return None;
            }
            q = q2;
            r = r2;
        }
        proof {
            acc = q * c + r;
            assert(acc + (tq * c + tr) * (2 * half) == p);
        }
        if half > 0 {
            let mut tr2: u128 = tr + tr;
            let mut tq2: u128 = tq + tq;
            proof {
                lemma_double_term(acc, tq as int, tr as int, c as int, half as int, p);
            }
            if tr2 >= c {
                tr2 = tr2 - c;
                tq2 = tq2 + 1;
            }
            assert(acc + (tq2 * c + tr2) * half == p);
            if tq2 > max {
                proof {
                    assert(acc >= 0) by (nonlinear_arith)
                        requires
                            acc == q * c + r,
                            q >= 0,
                            c > 0,
                            r >= 0,
                    ;
                    lemma_term_is_lower_bound(
                        acc,
                        tq2 as int,
                        tr2 as int,
                        c as int,
                        half as int,
                        p,
                    );
                    lemma_quotient_at_least(p, tq2 as int, c as int);
                }
                return None;
            }
            tq = tq2;
            tr = tr2;
        } else {
            assert(acc + (tq * c + tr) * half == p) by (nonlinear_arith)
                requires
                    half == 0,
                    acc + (tq * c + tr) * (2 * half) == p,
            ;
        }
        rest = half;
    }
    proof {
        assert(p == q * c + r) by (nonlinear_arith)
            requires
                rest == 0,
                q * c + r + (tq * c + tr) * rest == p,
        ;
        lemma_fundamental_div_mod_converse(p, c as int, q as int, r as int);
    }
    Some((q, r))
}

/// `a * b / c`, rounded down.
///
/// A zero divisor is `DivisionByZero`. With any other divisor, a negative
/// argument is `InvalidInput`, whatever the other arguments are. Otherwise
/// the result is the exact floor of the quotient whenever that floor fits in
/// an `i128`, however large the product `a * b` is, and `Overflow` when it
/// does not fit. No result is negative.
pub fn mul_div_down(a: i128, b: i128, c: i128) -> (r: Result<i128, MathError>)
    ensures
        r == spec_mul_div_down(a as int, b as int, c as int),
        c == 0 ==> r == Err::<i128, MathError>(MathError::DivisionByZero),
        c != 0 && (a < 0 || b < 0 || c < 0) ==> r == Err::<i128, MathError>(
            MathError::InvalidInput,
        ),
        r matches Ok(v) ==> v >= 0 && v == mul_div_floor(a as int, b as int, c as int),
{
    if c == 0 {
        return Err(MathError::DivisionByZero);
    }
    if a < 0 || b < 0 || c < 0 {
        return Err(MathError::InvalidInput);
    }
    if a == 0 || b == 0 {
        proof {
            assert(a * b == 0) by (nonlinear_arith)
                requires
                    a == 0 || b == 0,
            ;
            assert(0int / (c as int) == 0 && 0int % (c as int) == 0) by (nonlinear_arith)
                requires
                    c > 0,
            ;
        }
        return Ok(0);
    }
    match a.checked_mul(b) {
        Some(product) => {
            proof {
                lemma_quotient_at_most(product as int, c as int);
            }
            Ok(product / c)
        },
        None => match wide_mul_div_rem(a as u128, b as u128, c as u128) {
            Some((q, _m)) => Ok(q as i128),
            None => Err(MathError::Overflow),
        },
    }
}

/// Dividing a number that is not negative by a positive one gives a
/// quotient between zero and the number, and a remainder below the divisor.
pub proof fn lemma_quotient_at_most(x: int, c: int)
    by (nonlinear_arith)
    requires
        x >= 0,
        c > 0,
    ensures
        0 <= x / c <= x,
        0 <= x % c < c,
{
}

/// `a * b / c`, rounded up.
///
/// A zero divisor is `DivisionByZero`. With any other divisor, a negative
/// argument is `InvalidInput`, whatever the other arguments are. Otherwise
/// the result is the exact ceiling of the quotient whenever that ceiling
/// fits in an `i128`, and `Overflow` when it does not fit. No result is
/// negative.
pub fn mul_div_up(a: i128, b: i128, c: i128) -> (r: Result<i128, MathError>)
    ensures
        r == spec_mul_div_up(a as int, b as int, c as int),
        c == 0 ==> r == Err::<i128, MathError>(MathError::DivisionByZero),
        c != 0 && (a < 0 || b < 0 || c < 0) ==> r == Err::<i128, MathError>(
            MathError::InvalidInput,
        ),
        r matches Ok(v) ==> v >= 0 && v == mul_div_ceil(a as int, b as int, c as int),
{
    if c == 0 {
        return Err(MathError::DivisionByZero);
    }
    if a < 0 || b < 0 || c < 0 {
        return Err(MathError::InvalidInput);
    }
    if a == 0 || b == 0 {
        proof {
            assert(a * b == 0) by (nonlinear_arith)
                requires
                    a == 0 || b == 0,
            ;
            assert(0int / (c as int) == 0 && 0int % (c as int) == 0) by (nonlinear_arith)
                requires
                    c > 0,
            ;
        }
        return Ok(0);
    }
    match a.checked_mul(b) {
        Some(product) => {
            proof {
                lemma_quotient_at_most(product as int, c as int);
            }
            let q: i128 = product / c;
            if product % c > 0 {
                safe_add(q, 1)
            } else {
                Ok(q)
            }
        },
        None => match wide_mul_div_rem(a as u128, b as u128, c as u128) {
            Some((q, m)) => {
                if m > 0 {
                    safe_add(q as i128, 1)
                } else {
                    Ok(q as i128)
                }
            },
            None => Err(MathError::Overflow),
        },
    }
}

/// `a * b / c`, rounded down: the same function as `mul_div_down`.
pub fn mul_div(a: i128, b: i128, c: i128) -> (r: Result<i128, MathError>)
    ensures
        r == spec_mul_div_down(a as int, b as int, c as int),
        c == 0 ==> r == Err::<i128, MathError>(MathError::DivisionByZero),
        c != 0 && (a < 0 || b < 0 || c < 0) ==> r == Err::<i128, MathError>(
            MathError::InvalidInput,
        ),
        r matches Ok(v) ==> v >= 0 && v == mul_div_floor(a as int, b as int, c as int),
{
    mul_div_down(a, b, c)
}

/// The product of two reserves. A negative reserve is `InvalidInput`; a
/// product beyond the `i128` range is `Overflow`.
pub fn calculate_k(reserve_0: i128, reserve_1: i128) -> (r: Result<i128, MathError>)
    ensures
        r == spec_calculate_k(reserve_0 as int, reserve_1 as int),
{
    if reserve_0 < 0 || reserve_1 < 0 {
        return Err(MathError::InvalidInput);
    }
    proof {
        lemma_product_nonnegative(reserve_0 as int, reserve_1 as int);
    }
    safe_mul(reserve_0, reserve_1)
}

/// The product of two numbers that are not negative is not negative.
pub proof fn lemma_product_nonnegative(a: int, b: int)
    by (nonlinear_arith)
    requires
        a >= 0,
        b >= 0,
    ensures
        a * b >= 0,
{
}

/// What `update_reserves_add` returns on each input.
pub open spec fn spec_update_reserves_add(
    reserve_0: int,
    reserve_1: int,
    amount_0: int,
    amount_1: int,
) -> Result<(i128, i128), MathError> {
    if !fits_i128(reserve_0 + amount_0) || !fits_i128(reserve_1 + amount_1) {
        Err(MathError::Overflow)
    } else {
        Ok(((reserve_0 + amount_0) as i128, (reserve_1 + amount_1) as i128))
    }
}

/// Both reserves after a deposit; `Overflow` when either sum does not fit.
pub fn update_reserves_add(
    reserve_0: i128,
    reserve_1: i128,
    amount_0: i128,
    amount_1: i128,
) -> (r: Result<(i128, i128), MathError>)
    ensures
        r == spec_update_reserves_add(
            reserve_0 as int,
            reserve_1 as int,
            amount_0 as int,
            amount_1 as int,
        ),
{
    let new_reserve_0 = match safe_add(reserve_0, amount_0) {
        Ok(v) => v,
        Err(e) => {
            return Err(e);
        },
    };
    let new_reserve_1 = match safe_add(reserve_1, amount_1) {
        Ok(v) => v,
        Err(e) => {
            return Err(e);
        },
    };
    Ok((new_reserve_0, new_reserve_1))
}

/// What `update_reserves_sub` returns on each input.
pub open spec fn spec_update_reserves_sub(
    reserve_0: int,
    reserve_1: int,
    amount_0: int,
    amount_1: int,
) -> Result<(i128, i128), MathError> {
    if !fits_i128(reserve_0 - amount_0) || !fits_i128(reserve_1 - amount_1) || reserve_0 - amount_0
        < 0 || reserve_1 - amount_1 < 0 {
        Err(MathError::Underflow)
    } else {
        Ok(((reserve_0 - amount_0) as i128, (reserve_1 - amount_1) as i128))
    }
}

/// Both reserves after a withdrawal; `Underflow` when either difference does
/// not fit or would be negative.
pub fn update_reserves_sub(
    reserve_0: i128,
    reserve_1: i128,
    amount_0: i128,
    amount_1: i128,
) -> (r: Result<(i128, i128), MathError>)
    ensures
        r == spec_update_reserves_sub(
            reserve_0 as int,
            reserve_1 as int,
            amount_0 as int,
            amount_1 as int,
        ),
{
    let new_reserve_0 = match safe_sub(reserve_0, amount_0) {
        Ok(v) => v,
        Err(e) => {
            return Err(e);
        },
    };
    let new_reserve_1 = match safe_sub(reserve_1, amount_1) {
        Ok(v) => v,
        Err(e) => {
            return Err(e);
        },
    };
    if new_reserve_0 < 0 || new_reserve_1 < 0 {
        return Err(MathError::Underflow);
    }
    Ok((new_reserve_0, new_reserve_1))
}

/// What `update_reserves_swap` returns on each input.
pub open spec fn spec_update_reserves_swap(
    reserve_in: int,
    reserve_out: int,
    amount_in: int,
    amount_out: int,
    is_token_0_in: bool,
) -> Result<(i128, i128), MathError> {
    if !fits_i128(reserve_in + amount_in) {
        Err(MathError::Overflow)
    } else if !fits_i128(reserve_out - amount_out) || reserve_out - amount_out < 0 {
        Err(MathError::Underflow)
    } else if is_token_0_in {
        Ok(((reserve_in + amount_in) as i128, (reserve_out - amount_out) as i128))
    } else {
        Ok(((reserve_out - amount_out) as i128, (reserve_in + amount_in) as i128))
    }
}

/// Both reserves after a swap, in the pool's own order (asset 0 first).
/// `Overflow` when the input side does not fit; `Underflow` when the output
/// side does not fit or would be negative.
pub fn update_reserves_swap(
    reserve_in: i128,
    reserve_out: i128,
    amount_in: i128,
    amount_out: i128,
    is_token_0_in: bool,
) -> (r: Result<(i128, i128), MathError>)
    ensures
        r == spec_update_reserves_swap(
            reserve_in as int,
            reserve_out as int,
            amount_in as int,
            amount_out as int,
            is_token_0_in,
        ),
{
    let new_reserve_in = match safe_add(reserve_in, amount_in) {
        Ok(v) => v,
        Err(e) => {
            return Err(e);
        },
    };
    let new_reserve_out = match safe_sub(reserve_out, amount_out) {
        Ok(v) => v,
        Err(e) => {
            return Err(e);
        },
    };
    if new_reserve_out < 0 {
        return Err(MathError::Underflow);
    }
    if is_token_0_in {
        Ok((new_reserve_in, new_reserve_out))
    } else {
        Ok((new_reserve_out, new_reserve_in))
    }
}

/// What `verify_k_invariant` returns on each input: whether the product of
/// the new reserves is at least that of the old ones, both products taken
/// as mathematical integers.
pub open spec fn spec_verify_k_invariant(
    new_reserve_0: int,
    new_reserve_1: int,
    old_reserve_0: int,
    old_reserve_1: int,
) -> Result<bool, MathError> {
    if new_reserve_0 < 0 || new_reserve_1 < 0 || old_reserve_0 < 0 || old_reserve_1 < 0 {
        Err(MathError::InvalidInput)
    } else {
        Ok(new_reserve_0 * new_reserve_1 >= old_reserve_0 * old_reserve_1)
    }
}

/// Comparing a product with a dividend comes to comparing one factor with
/// the quotient by the other.
pub proof fn lemma_product_against_quotient(n: int, c: int, d: int)
    by (nonlinear_arith)
    requires
        d > 0,
    ensures
        n >= c * d <==> n / d >= c,
{
    assert((n / d) * d <= n < (n / d + 1) * d);
    if n / d >= c {
        assert((n / d) * d >= c * d);
    } else {
        assert((n / d + 1) * d <= c * d);
    }
}

/// Whether the product of the new reserves is at least that of the old
/// ones. The answer is exact however large the products are: none of them
/// is ever formed beyond the range of `i128`. A negative reserve is
/// `InvalidInput`; there is no other failure.
pub fn verify_k_invariant(
    new_reserve_0: i128,
    new_reserve_1: i128,
    old_reserve_0: i128,
    old_reserve_1: i128,
) -> (r: Result<bool, MathError>)
    ensures
        r == spec_verify_k_invariant(
            new_reserve_0 as int,
            new_reserve_1 as int,
            old_reserve_0 as int,
            old_reserve_1 as int,
        ),
{
    if new_reserve_0 < 0 || new_reserve_1 < 0 || old_reserve_0 < 0 || old_reserve_1 < 0 {
        return Err(MathError::InvalidInput);
    }
    proof {
        lemma_product_nonnegative(new_reserve_0 as int, new_reserve_1 as int);
        lemma_product_nonnegative(old_reserve_0 as int, old_reserve_1 as int);
    }
    if old_reserve_1 == 0 {
        proof {
            assert(old_reserve_0 * old_reserve_1 == 0) by (nonlinear_arith)
                requires
                    old_reserve_1 == 0,
            ;
        }
        return Ok(true);
    }
    match new_reserve_0.checked_mul(new_reserve_1) {
        Some(k_new) => match old_reserve_0.checked_mul(old_reserve_1) {
            Some(k_old) => Ok(k_new >= k_old),
            None => Ok(false),
        },
        None => {
            proof {
                lemma_product_against_quotient(
                    new_reserve_0 * new_reserve_1,
                    old_reserve_0 as int,
                    old_reserve_1 as int,
                );
            }
            match wide_mul_div_rem(
                new_reserve_0 as u128,
                new_reserve_1 as u128,
                old_reserve_1 as u128,
            ) {
                Some((quotient, _)) => Ok(quotient >= old_reserve_0 as u128),
                None => Ok(true),
            }
        },
    }
}

proof fn lemma_newton_step_stays_above(x: int, v: int, q: int, y: int)
    by (nonlinear_arith)
    requires
        x > 0,
        v >= 0,
        q * x <= v < (q + 1) * x,
        2 * y <= x + q <= 2 * y + 1,
    ensures
        v < (y + 1) * (y + 1),
{
    assert((x + q + 1) * (x + q + 1) == (x - q - 1) * (x - q - 1) + 4 * (x * (q + 1)));
    assert((x - q - 1) * (x - q - 1) >= 0);
    assert(4 * ((y + 1) * (y + 1)) == (2 * y + 2) * (2 * y + 2));
    assert((2 * y + 2) * (2 * y + 2) >= (x + q + 1) * (x + q + 1));
}

proof fn lemma_newton_fixpoint(x: int, v: int, q: int, y: int)
    by (nonlinear_arith)
    requires
        x > 0,
        v >= 0,
        q * x <= v < (q + 1) * x,
        2 * y <= x + q <= 2 * y + 1,
        y >= x,
    ensures
        x * x <= v,
{
}

/// A part of a whole, applied to an amount: `part / whole` of `amount`,
/// rounded down, lies between zero and `amount`, in whichever order the
/// product is formed.
pub proof fn lemma_part_of_amount(part: int, whole: int, amount: int)
    by (nonlinear_arith)
    requires
        0 <= part <= whole,
        0 < whole,
        0 <= amount,
    ensures
        0 <= (part * amount) / whole <= amount,
        0 <= (amount * part) / whole <= amount,
        amount == 0 || part == 0 ==> (part * amount) / whole == 0,
{
    assert(part * amount <= whole * amount);
    assert(part * amount >= 0);
    assert(amount * part == part * amount);
}

/// The floor of a quotient: the dividend lies between the quotient's multiple
/// of the divisor and the next one.
pub proof fn lemma_floor_bounds(n: int, d: int)
    by (nonlinear_arith)
    requires
        d > 0,
    ensures
        (n / d) * d <= n < (n / d + 1) * d,
{
}

proof fn lemma_square_of_successor(v: int)
    by (nonlinear_arith)
    requires
        v >= 1,
    ensures
        v < (v + 1) * (v + 1),
{
}

/// The integer square root of `value`: the largest `r` with `r * r <= value`.
/// Zero for every `value <= 0`.
pub fn sqrt(value: i128) -> (r: i128)
    ensures
        r == int_sqrt(value as int),
        value > 0 ==> is_sqrt_of(r as int, value as int),
{
    if value <= 0 {
        return 0;
    }
    let v: u128 = value as u128;
    let mut x: u128 = v;
    let mut y: u128 = (x + 1) / 2;
    proof {
        lemma_square_of_successor(v as int);
        lemma_floor_bounds(v as int, x as int);
        lemma_quotient_at_most(v as int, x as int);
        assert(v / x == 1) by (nonlinear_arith)
            requires
                v == x,
                x > 0,
        ;
    }
    while y < x
        invariant
            v == value,
            0 < x <= v,
            v <= i128::MAX,
            v < (x + 1) * (x + 1),
            2 * y <= x + v / x <= 2 * y + 1,
        decreases x,
    {
        proof {
            lemma_floor_bounds(v as int, x as int);
        lemma_quotient_at_most(v as int, x as int);
            lemma_newton_step_stays_above(x as int, v as int, (v / x) as int, y as int);
            assert(y > 0) by {
                if y == 0 {
                    assert(x == 1 && v / x == 0);
                    assert(v >= 1);
                }
            }
        }
        x = y;
        proof {
            lemma_floor_bounds(v as int, x as int);
        lemma_quotient_at_most(v as int, x as int);
        }
        y = (x + v / x) / 2;
    }
    proof {
        lemma_floor_bounds(v as int, x as int);
        lemma_quotient_at_most(v as int, x as int);
        lemma_newton_fixpoint(x as int, v as int, (v / x) as int, y as int);
        assert(is_sqrt_of(x as int, value as int));
        lemma_sqrt_unique(x as int, int_sqrt(value as int), value as int);
    }
    x as i128
}

/// The integer square root of a product of two numbers that are not
/// negative is at most the larger of the two.
pub proof fn lemma_root_of_product_is_bounded(a: int, b: int)
    requires
        a >= 0,
        b >= 0,
    ensures
        0 <= int_sqrt(a * b),
        int_sqrt(a * b) <= a || int_sqrt(a * b) <= b,
{
    let p = a * b;
    lemma_product_nonnegative(a, b);
    lemma_int_sqrt(p);
    let root = int_sqrt(p);
    assert(root <= a || root <= b) by (nonlinear_arith)
        requires
            a >= 0,
            b >= 0,
            root >= 0,
            root * root <= a * b,
    {
        if root > a && root > b {
            assert(root * root >= (a + 1) * (b + 1));
            assert((a + 1) * (b + 1) > a * b);
        }
    }
}

proof fn lemma_root_lies_between_factors(a: int, b: int)
    by (nonlinear_arith)
    requires
        0 <= a <= b,
    ensures
        a * a <= a * b,
        a * b < (b + 1) * (b + 1),
{
    assert(a * b <= b * b);
}

/// The integer square root of the product `a * b`, exact however large the
/// product is: the product itself is never formed.
pub(crate) fn sqrt_of_product(a: i128, b: i128) -> (r: i128)
    requires
        a >= 0,
        b >= 0,
    ensures
        r == int_sqrt(a * b),
        a * b > 0 ==> is_sqrt_of(r as int, a * b),
        r <= a || r <= b,
{
    let ghost p: int = a * b;
    proof {
        lemma_product_nonnegative(a as int, b as int);
    }
    let mut low: i128 = min(a, b);
    let mut high: i128 = max(a, b);
    proof {
        lemma_root_lies_between_factors(low as int, high as int);
        assert(low * high == p) by (nonlinear_arith)
            requires
                (low == a && high == b) || (low == b && high == a),
                p == a * b,
        ;
    }
    while low < high
        invariant
            0 <= low <= high,
            a >= 0,
            b >= 0,
            high <= a || high <= b,
            p == a * b,
            low * low <= p < (high + 1) * (high + 1),
        decreases high - low,
    {
        let gap: i128 = high - low;
        let middle: i128 = low + gap / 2 + gap % 2;
        match verify_k_invariant(a, b, middle, middle) {
            Ok(true) => {
                low = middle;
            },
            _ => {
                high = middle - 1;
            },
        }
    }
    proof {
        assert(is_sqrt_of(low as int, p));
        if p > 0 {
            lemma_sqrt_unique(low as int, int_sqrt(p), p);
        } else {
            assert(low == 0) by (nonlinear_arith)
                requires
                    low >= 0,
                    low * low <= p,
                    p <= 0,
            ;
        }
    }
    low
}

/// What `percentage_bps` returns on each input.
pub open spec fn spec_percentage_bps(amount: int, bps: int) -> Result<i128, MathError> {
    if !fits_i128(amount * bps) {
        Err(MathError::Overflow)
    } else {
        Ok(trunc_div(amount * bps, 10_000) as i128)
    }
}

/// The share of `amount` that `bps` basis points make up, rounded toward
/// zero. `Overflow` when `amount * bps` does not fit.
pub fn percentage_bps(amount: i128, bps: u32) -> (r: Result<i128, MathError>)
    ensures
        r == spec_percentage_bps(amount as int, bps as int),
{
    match safe_mul(amount, bps as i128) {
        Ok(product) => safe_div(product, BPS as i128),
        Err(e) => Err(e),
    }
}

/// What `remainder_after_bps` returns on each input.
pub open spec fn spec_remainder_after_bps(amount: int, bps: int) -> Result<i128, MathError> {
    if !fits_i128(amount * bps) {
        Err(MathError::Overflow)
    } else {
        Ok((amount - trunc_div(amount * bps, 10_000)) as i128)
    }
}

/// What is left of `amount` once `bps` basis points of it are taken away.
/// `Overflow` when `amount * bps` does not fit; no other failure exists.
pub fn remainder_after_bps(amount: i128, bps: u32) -> (r: Result<i128, MathError>)
    ensures
        r == spec_remainder_after_bps(amount as int, bps as int),
{
    match percentage_bps(amount, bps) {
        Ok(fee) => {
            proof {
                lemma_fee_has_sign_of_amount(amount as int, bps as int);
            }
            safe_sub(amount, fee)
        },
        Err(e) => Err(e),
    }
}

proof fn lemma_fee_has_sign_of_amount(amount: int, bps: int)
    by (nonlinear_arith)
    requires
        bps >= 0,
    ensures
        amount >= 0 ==> 0 <= trunc_div(amount * bps, 10_000) <= amount * bps,
        amount < 0 ==> amount * bps <= trunc_div(amount * bps, 10_000) <= 0,
{
}

/// The smaller of two values.
pub fn min(a: i128, b: i128) -> (r: i128)
    ensures
        r == if a < b { a } else { b },
{
    if a < b {
        a
    } else {
        b
    }
}

/// The larger of two values.
pub fn max(a: i128, b: i128) -> (r: i128)
    ensures
        r == if a > b { a } else { b },
{
    if a > b {
        a
    } else {
        b
    }
}

/// `value` limited to the range from `min_val` to `max_val`: `max_val` when
/// `value` is above it, and otherwise the larger of `value` and `min_val`.
pub fn clamp(value: i128, min_val: i128, max_val: i128) -> (r: i128)
    ensures
        r == if value > max_val {
            if max_val > min_val { max_val } else { min_val }
        } else if value > min_val {
            value
        } else {
            min_val
        },
{
    max(min_val, min(max_val, value))
}

} // verus!
