//! The constant-product formulas: swap quotes, proportional quotes, and the
//! share arithmetic of deposits and withdrawals.

use crate::error::lift;
use crate::error::AstroSwapError;
use crate::math;
use crate::math::fits_i128;
use crate::math::int_sqrt;
use crate::math::mul_div_ceil;
use crate::math::mul_div_floor;
use crate::math::spec_calculate_k;
use crate::math::spec_mul_div_down;
use crate::math::spec_mul_div_up;
use crate::math::spec_update_reserves_add;
use crate::math::spec_update_reserves_sub;
use crate::math::spec_update_reserves_swap;
use crate::math::spec_verify_k_invariant;
use crate::math::trunc_div;
use crate::math::MathError;
use vstd::prelude::*;

verus! {

/// Number of basis points in one whole.
pub const BPS_DENOMINATOR: u32 = 10_000;

/// The swap fee of a new pool, in basis points.
pub const DEFAULT_SWAP_FEE_BPS: u32 = 30;

/// The part of the swap fee that goes to the protocol, in basis points.
pub const PROTOCOL_FEE_BPS: u32 = 5;

/// The part of the swap fee that stays with liquidity providers, in basis points.
pub const LP_FEE_BPS: u32 = 25;

/// Shares withheld from the first deposit and never redeemable.
pub const MINIMUM_LIQUIDITY: i128 = 1000;

fn lift_result<T>(r: Result<T, MathError>) -> (out: Result<T, AstroSwapError>)
    ensures
        out == lift(r),
{
    match r {
        Ok(v) => Ok(v),
        Err(e) => Err(AstroSwapError::from(e)),
    }
}

/// `math::safe_add` with the pool's error type.
pub fn safe_add(a: i128, b: i128) -> (r: Result<i128, AstroSwapError>)
    ensures
        fits_i128(a + b) ==> r == Ok::<i128, AstroSwapError>((a + b) as i128),
        !fits_i128(a + b) ==> r == Err::<i128, AstroSwapError>(AstroSwapError::Overflow),
{
    lift_result(math::safe_add(a, b))
}

/// `math::safe_sub` with the pool's error type.
pub fn safe_sub(a: i128, b: i128) -> (r: Result<i128, AstroSwapError>)
    ensures
        fits_i128(a - b) ==> r == Ok::<i128, AstroSwapError>((a - b) as i128),
        !fits_i128(a - b) ==> r == Err::<i128, AstroSwapError>(AstroSwapError::Underflow),
{
    lift_result(math::safe_sub(a, b))
}

/// `math::safe_mul` with the pool's error type.
pub fn safe_mul(a: i128, b: i128) -> (r: Result<i128, AstroSwapError>)
    ensures
        fits_i128(a * b) ==> r == Ok::<i128, AstroSwapError>((a * b) as i128),
        !fits_i128(a * b) ==> r == Err::<i128, AstroSwapError>(AstroSwapError::Overflow),
{
    lift_result(math::safe_mul(a, b))
}

/// `math::safe_div` with the pool's error type.
pub fn safe_div(a: i128, b: i128) -> (r: Result<i128, AstroSwapError>)
    ensures
        b == 0 ==> r == Err::<i128, AstroSwapError>(AstroSwapError::DivisionByZero),
        b != 0 && !fits_i128(trunc_div(a as int, b as int)) ==> r == Err::<i128, AstroSwapError>(
            AstroSwapError::Overflow,
        ),
        b != 0 && fits_i128(trunc_div(a as int, b as int)) ==> r == Ok::<i128, AstroSwapError>(
            trunc_div(a as int, b as int) as i128,
        ),
{
    lift_result(math::safe_div(a, b))
}

/// `math::mul_div_down` with the pool's error type: a zero divisor is
/// `DivisionByZero`, and with any other divisor a negative argument is
/// `InvalidArgument`.
pub fn mul_div_down(a: i128, b: i128, c: i128) -> (r: Result<i128, AstroSwapError>)
    ensures
        r == lift(spec_mul_div_down(a as int, b as int, c as int)),
        c == 0 ==> r == Err::<i128, AstroSwapError>(AstroSwapError::DivisionByZero),
        c != 0 && (a < 0 || b < 0 || c < 0) ==> r == Err::<i128, AstroSwapError>(
            AstroSwapError::InvalidArgument,
        ),
        r matches Ok(v) ==> v >= 0,
{
    lift_result(math::mul_div_down(a, b, c))
}

/// `math::mul_div_up` with the pool's error type: a zero divisor is
/// `DivisionByZero`, and with any other divisor a negative argument is
/// `InvalidArgument`.
pub fn mul_div_up(a: i128, b: i128, c: i128) -> (r: Result<i128, AstroSwapError>)
    ensures
        r == lift(spec_mul_div_up(a as int, b as int, c as int)),
        c == 0 ==> r == Err::<i128, AstroSwapError>(AstroSwapError::DivisionByZero),
        c != 0 && (a < 0 || b < 0 || c < 0) ==> r == Err::<i128, AstroSwapError>(
            AstroSwapError::InvalidArgument,
        ),
        r matches Ok(v) ==> v >= 0,
{
    lift_result(math::mul_div_up(a, b, c))
}

/// `math::calculate_k` with the pool's error type.
pub fn calculate_k(reserve_0: i128, reserve_1: i128) -> (r: Result<i128, AstroSwapError>)
    ensures
        r == lift(spec_calculate_k(reserve_0 as int, reserve_1 as int)),
{
    lift_result(math::calculate_k(reserve_0, reserve_1))
}

/// `math::update_reserves_add` with the pool's error type.
pub fn update_reserves_add(
    reserve_0: i128,
    reserve_1: i128,
    amount_0: i128,
    amount_1: i128,
) -> (r: Result<(i128, i128), AstroSwapError>)
    ensures
        r == lift(
            spec_update_reserves_add(
                reserve_0 as int,
                reserve_1 as int,
                amount_0 as int,
                amount_1 as int,
            ),
        ),
{
    lift_result(math::update_reserves_add(reserve_0, reserve_1, amount_0, amount_1))
}

/// `math::update_reserves_sub` with the pool's error type.
pub fn update_reserves_sub(
    reserve_0: i128,
    reserve_1: i128,
    amount_0: i128,
    amount_1: i128,
) -> (r: Result<(i128, i128), AstroSwapError>)
    ensures
        r == lift(
            spec_update_reserves_sub(
                reserve_0 as int,
                reserve_1 as int,
                amount_0 as int,
                amount_1 as int,
            ),
        ),
{
    lift_result(math::update_reserves_sub(reserve_0, reserve_1, amount_0, amount_1))
}

/// `math::update_reserves_swap` with the pool's error type.
pub fn update_reserves_swap(
    reserve_in: i128,
    reserve_out: i128,
    amount_in: i128,
    amount_out: i128,
    is_token_0_in: bool,
) -> (r: Result<(i128, i128), AstroSwapError>)
    ensures
        r == lift(
            spec_update_reserves_swap(
                reserve_in as int,
                reserve_out as int,
                amount_in as int,
                amount_out as int,
                is_token_0_in,
            ),
        ),
{
    lift_result(
        math::update_reserves_swap(reserve_in, reserve_out, amount_in, amount_out, is_token_0_in),
    )
}

/// `math::verify_k_invariant` with the pool's error type: the exact
/// comparison of the two products, and `InvalidArgument` for a negative
/// reserve.
pub fn verify_k_invariant(
    new_reserve_0: i128,
    new_reserve_1: i128,
    old_reserve_0: i128,
    old_reserve_1: i128,
) -> (r: Result<bool, AstroSwapError>)
    ensures
        r == lift(
            spec_verify_k_invariant(
                new_reserve_0 as int,
                new_reserve_1 as int,
                old_reserve_0 as int,
                old_reserve_1 as int,
            ),
        ),
{
    lift_result(
        math::verify_k_invariant(new_reserve_0, new_reserve_1, old_reserve_0, old_reserve_1),
    )
}

/// The integer square root, as `math::sqrt`.
pub fn sqrt(value: i128) -> (r: i128)
    ensures
        r == int_sqrt(value as int),
{
    math::sqrt(value)
}

/// What `get_amount_out` returns on each input.
///
/// With `f = 10000 - fee_bps`, the output is
/// `floor(amount_in * f * reserve_out / (reserve_in * 10000 + amount_in * f))`.
pub open spec fn spec_get_amount_out(
    amount_in: int,
    reserve_in: int,
    reserve_out: int,
    fee_bps: int,
) -> Result<i128, AstroSwapError> {
    if amount_in <= 0 {
        Err(AstroSwapError::InvalidAmount)
    } else if reserve_in <= 0 || reserve_out <= 0 {
        Err(AstroSwapError::InsufficientLiquidity)
    } else if fee_bps > 10_000 {
        Err(AstroSwapError::InvalidArgument)
    } else if amount_in * (10_000 - fee_bps) > i128::MAX {
        Err(AstroSwapError::Overflow)
    } else if reserve_in * 10_000 + amount_in * (10_000 - fee_bps) > i128::MAX {
        Err(AstroSwapError::Overflow)
    } else {
        Ok(
            mul_div_floor(
                amount_in * (10_000 - fee_bps),
                reserve_out,
                reserve_in * 10_000 + amount_in * (10_000 - fee_bps),
            ) as i128,
        )
    }
}

proof fn lemma_output_below_reserve(with_fee: int, reserve_out: int, denominator: int)
    by (nonlinear_arith)
    requires
        0 <= with_fee < denominator,
        reserve_out > 0,
    ensures
        0 <= (with_fee * reserve_out) / denominator < reserve_out,
{
    assert(with_fee * reserve_out < denominator * reserve_out);
    assert(with_fee * reserve_out >= 0);
}

/// The amount of the output asset that a swap of `amount_in` yields.
///
/// A non-positive `amount_in` is `InvalidAmount`; a non-positive reserve is
/// `InsufficientLiquidity`; a fee above 10000 basis points is
/// `InvalidArgument`; `Overflow` when the fee-adjusted input or the
/// denominator does not fit in an `i128`. The result is always below
/// `reserve_out`.
pub fn get_amount_out(
    amount_in: i128,
    reserve_in: i128,
    reserve_out: i128,
    fee_bps: u32,
) -> (r: Result<i128, AstroSwapError>)
    ensures
        r == spec_get_amount_out(
            amount_in as int,
            reserve_in as int,
            reserve_out as int,
            fee_bps as int,
        ),
        r matches Ok(out) ==> 0 <= out < reserve_out,
{
    if amount_in <= 0 {
        return Err(AstroSwapError::InvalidAmount);
    }
    if reserve_in <= 0 || reserve_out <= 0 {
        return Err(AstroSwapError::InsufficientLiquidity);
    }
    if fee_bps > BPS_DENOMINATOR {
        return Err(AstroSwapError::InvalidArgument);
    }
    let fee_factor: i128 = (BPS_DENOMINATOR - fee_bps) as i128;
    proof {
        assert(amount_in * fee_factor >= 0) by (nonlinear_arith)
            requires
                amount_in > 0,
                fee_factor >= 0,
        ;
    }
    let with_fee = match safe_mul(amount_in, fee_factor) {
        Ok(v) => v,
        Err(e) => {
            return Err(e);
        },
    };
    let scaled_reserve = match safe_mul(reserve_in, BPS_DENOMINATOR as i128) {
        Ok(v) => v,
        Err(e) => {
            return Err(e);
        },
    };
    let denominator = match safe_add(scaled_reserve, with_fee) {
        Ok(v) => v,
        Err(e) => {
            return Err(e);
        },
    };
    proof {
        lemma_output_below_reserve(with_fee as int, reserve_out as int, denominator as int);
        assert(with_fee == 0 ==> (with_fee * reserve_out) / (denominator as int) == 0)
            by (nonlinear_arith)
            requires
                denominator > 0,
        ;
    }
    mul_div_down(with_fee, reserve_out, denominator)
}

/// The constant product never falls under the swap formula: whatever the
/// fee, the reserves after a swap multiply to at least what they multiplied
/// to before it, and the output stays below the output reserve.
pub proof fn lemma_swap_keeps_product(
    amount_in: int,
    reserve_in: int,
    reserve_out: int,
    fee_factor: int,
)
    requires
        amount_in > 0,
        reserve_in > 0,
        reserve_out > 0,
        0 <= fee_factor <= 10_000,
    ensures
        ({
            let out = mul_div_floor(
                amount_in * fee_factor,
                reserve_out,
                reserve_in * 10_000 + amount_in * fee_factor,
            );
            &&& 0 <= out < reserve_out
            &&& (reserve_in + amount_in) * (reserve_out - out) >= reserve_in * reserve_out
        }),
{
    let with_fee = amount_in * fee_factor;
    let d = reserve_in * 10_000 + with_fee;
    let x = with_fee * reserve_out;
    let out = x / d;
    assert(with_fee >= 0) by (nonlinear_arith)
        requires
            with_fee == amount_in * fee_factor,
            amount_in > 0,
            fee_factor >= 0,
    ;
    lemma_output_below_reserve(with_fee, reserve_out, d);
    assert(out * d <= x) by (nonlinear_arith)
        requires
            out == x / d,
            d > 0,
    ;
    assert(out * (reserve_in + amount_in) <= amount_in * reserve_out) by (nonlinear_arith)
        requires
            out * d <= x,
            d == reserve_in * 10_000 + with_fee,
            x == with_fee * reserve_out,
            with_fee == amount_in * fee_factor,
            0 <= out < reserve_out,
            amount_in > 0,
            0 <= fee_factor <= 10_000,
    {
        assert(out * d == out * reserve_in * 10_000 + out * (amount_in * fee_factor));
        assert(out * (amount_in * (10_000 - fee_factor)) <= reserve_out * (amount_in * (10_000
            - fee_factor))) by {
            assert(amount_in * (10_000 - fee_factor) >= 0);
        }
        assert(out * (reserve_in + amount_in) * 10_000 == out * reserve_in * 10_000 + out * (
        amount_in * fee_factor) + out * (amount_in * (10_000 - fee_factor)));
        assert(amount_in * reserve_out * 10_000 == (amount_in * fee_factor) * reserve_out
            + reserve_out * (amount_in * (10_000 - fee_factor)));
    }
    assert((reserve_in + amount_in) * (reserve_out - out) >= reserve_in * reserve_out)
        by (nonlinear_arith)
        requires
            out * (reserve_in + amount_in) <= amount_in * reserve_out,
    ;
}

/// What `get_amount_in` returns on each input.
///
/// With `f = 10000 - fee_bps`, the input is
/// `ceil(reserve_in * 10000 * amount_out / ((reserve_out - amount_out) * f)) + 1`.
pub open spec fn spec_get_amount_in(
    amount_out: int,
    reserve_in: int,
    reserve_out: int,
    fee_bps: int,
) -> Result<i128, AstroSwapError> {
    if amount_out <= 0 {
        Err(AstroSwapError::InvalidAmount)
    } else if reserve_in <= 0 || reserve_out <= 0 {
        Err(AstroSwapError::InsufficientLiquidity)
    } else if amount_out >= reserve_out {
        Err(AstroSwapError::InsufficientLiquidity)
    } else if fee_bps > 10_000 {
        Err(AstroSwapError::InvalidArgument)
    } else if reserve_in * 10_000 > i128::MAX {
        Err(AstroSwapError::Overflow)
    } else if (reserve_out - amount_out) * (10_000 - fee_bps) > i128::MAX {
        Err(AstroSwapError::Overflow)
    } else if fee_bps == 10_000 {
        Err(AstroSwapError::DivisionByZero)
    } else if mul_div_ceil(
        reserve_in * 10_000,
        amount_out,
        (reserve_out - amount_out) * (10_000 - fee_bps),
    ) + 1 > i128::MAX {
        Err(AstroSwapError::Overflow)
    } else {
        Ok(
            (mul_div_ceil(
                reserve_in * 10_000,
                amount_out,
                (reserve_out - amount_out) * (10_000 - fee_bps),
            ) + 1) as i128,
        )
    }
}

/// The amount of the input asset that must be paid for `amount_out`: the
/// exact requirement rounded up, plus one unit.
///
/// A non-positive `amount_out` is `InvalidAmount`; a non-positive reserve, or
/// an `amount_out` that is not below `reserve_out`, is
/// `InsufficientLiquidity`; a fee above 10000 basis points is
/// `InvalidArgument`, and one of exactly 10000 is `DivisionByZero`;
/// `Overflow` when a term or the result does not fit in an `i128`.
pub fn get_amount_in(
    amount_out: i128,
    reserve_in: i128,
    reserve_out: i128,
    fee_bps: u32,
) -> (r: Result<i128, AstroSwapError>)
    ensures
        r == spec_get_amount_in(
            amount_out as int,
            reserve_in as int,
            reserve_out as int,
            fee_bps as int,
        ),
{
    if amount_out <= 0 {
        return Err(AstroSwapError::InvalidAmount);
    }
    if reserve_in <= 0 || reserve_out <= 0 {
        return Err(AstroSwapError::InsufficientLiquidity);
    }
    if amount_out >= reserve_out {
        return Err(AstroSwapError::InsufficientLiquidity);
    }
    if fee_bps > BPS_DENOMINATOR {
        return Err(AstroSwapError::InvalidArgument);
    }
    let fee_factor: i128 = (BPS_DENOMINATOR - fee_bps) as i128;
    let remaining: i128 = reserve_out - amount_out;
    proof {
        assert(remaining * fee_factor >= 0) by (nonlinear_arith)
            requires
                remaining > 0,
                fee_factor >= 0,
        ;
        assert(fee_factor == 0 ==> remaining * fee_factor == 0) by (nonlinear_arith);
        assert(fee_factor > 0 ==> remaining * fee_factor > 0) by (nonlinear_arith)
            requires
                remaining > 0,
        ;
    }
    let scaled_reserve = match safe_mul(reserve_in, BPS_DENOMINATOR as i128) {
        Ok(v) => v,
        Err(e) => {
            return Err(e);
        },
    };
    let denominator = match safe_mul(remaining, fee_factor) {
        Ok(v) => v,
        Err(e) => {
            return Err(e);
        },
    };
    match mul_div_up(scaled_reserve, amount_out, denominator) {
        Ok(v) => safe_add(v, 1),
        Err(e) => Err(e),
    }
}

/// What a successful `get_amount_out` has established of its arguments, and
/// the value it returns.
pub proof fn lemma_amount_out_is_floor(
    amount_in: i128,
    reserve_in: i128,
    reserve_out: i128,
    fee_bps: u32,
)
    requires
        spec_get_amount_out(amount_in as int, reserve_in as int, reserve_out as int, fee_bps as int)
            is Ok,
    ensures
        amount_in > 0,
        reserve_in > 0,
        reserve_out > 0,
        fee_bps <= 10_000,
        spec_get_amount_out(
            amount_in as int,
            reserve_in as int,
            reserve_out as int,
            fee_bps as int,
        )->Ok_0 == mul_div_floor(
            amount_in * (10_000 - fee_bps),
            reserve_out as int,
            reserve_in * 10_000 + amount_in * (10_000 - fee_bps),
        ),
        0 <= mul_div_floor(
            amount_in * (10_000 - fee_bps),
            reserve_out as int,
            reserve_in * 10_000 + amount_in * (10_000 - fee_bps),
        ) < reserve_out,
{
    lemma_swap_keeps_product(
        amount_in as int,
        reserve_in as int,
        reserve_out as int,
        10_000 - fee_bps,
    );
}

/// What a successful `get_amount_in` has established of its arguments, and
/// the value it returns.
pub proof fn lemma_amount_in_is_ceiling_plus_one(
    amount_out: i128,
    reserve_in: i128,
    reserve_out: i128,
    fee_bps: u32,
)
    requires
        spec_get_amount_in(amount_out as int, reserve_in as int, reserve_out as int, fee_bps as int)
            is Ok,
    ensures
        0 < amount_out < reserve_out,
        reserve_in > 0,
        fee_bps < 10_000,
        (reserve_out - amount_out) * (10_000 - fee_bps) > 0,
        spec_get_amount_in(
            amount_out as int,
            reserve_in as int,
            reserve_out as int,
            fee_bps as int,
        )->Ok_0 == mul_div_ceil(
            reserve_in * 10_000,
            amount_out as int,
            (reserve_out - amount_out) * (10_000 - fee_bps),
        ) + 1,
        mul_div_ceil(
            reserve_in * 10_000,
            amount_out as int,
            (reserve_out - amount_out) * (10_000 - fee_bps),
        ) >= 1,
{
    let d = (reserve_out - amount_out) * (10_000 - fee_bps);
    let n = (reserve_in * 10_000) * amount_out;
    assert(d > 0) by (nonlinear_arith)
        requires
            d == (reserve_out - amount_out) * (10_000 - fee_bps),
            reserve_out - amount_out > 0,
            10_000 - fee_bps > 0,
    ;
    assert(n > 0) by (nonlinear_arith)
        requires
            n == (reserve_in * 10_000) * amount_out,
            reserve_in > 0,
            amount_out > 0,
    ;
    assert(mul_div_ceil(reserve_in * 10_000, amount_out as int, d) >= 1) by (nonlinear_arith)
        requires
            n == (reserve_in * 10_000) * amount_out,
            n > 0,
            d > 0,
    {
        assert(n == (n / d) * d + n % d);
        assert(0 <= n % d < d);
        if n % d == 0 {
            assert(n / d >= 1);
        } else {
            assert(n / d >= 0);
        }
    }
}

/// What `quote` returns on each input.
pub open spec fn spec_quote(
    amount_a: int,
    reserve_a: int,
    reserve_b: int,
) -> Result<i128, AstroSwapError> {
    if amount_a <= 0 {
        Err(AstroSwapError::InvalidAmount)
    } else if reserve_a <= 0 || reserve_b <= 0 {
        Err(AstroSwapError::InsufficientLiquidity)
    } else if mul_div_floor(amount_a, reserve_b, reserve_a) > i128::MAX {
        Err(AstroSwapError::Overflow)
    } else {
        Ok(mul_div_floor(amount_a, reserve_b, reserve_a) as i128)
    }
}

/// The amount of asset B that matches `amount_a` of asset A at the pool's
/// current ratio: `floor(amount_a * reserve_b / reserve_a)`.
///
/// A non-positive `amount_a` is `InvalidAmount`; a non-positive reserve is
/// `InsufficientLiquidity`; `Overflow` when the result does not fit.
pub fn quote(amount_a: i128, reserve_a: i128, reserve_b: i128) -> (r: Result<i128, AstroSwapError>)
    ensures
        r == spec_quote(amount_a as int, reserve_a as int, reserve_b as int),
{
    if amount_a <= 0 {
        return Err(AstroSwapError::InvalidAmount);
    }
    if reserve_a <= 0 || reserve_b <= 0 {
        return Err(AstroSwapError::InsufficientLiquidity);
    }
    mul_div_down(amount_a, reserve_b, reserve_a)
}

/// What `calculate_liquidity_tokens` returns on each input.
pub open spec fn spec_calculate_liquidity_tokens(
    amount_a: int,
    amount_b: int,
    reserve_a: int,
    reserve_b: int,
    total_supply: int,
) -> Result<i128, AstroSwapError> {
    if amount_a <= 0 || amount_b <= 0 {
        Err(AstroSwapError::InvalidAmount)
    } else if total_supply == 0 {
        if int_sqrt(amount_a * amount_b) <= 1000 {
            Err(AstroSwapError::InsufficientLiquidity)
        } else {
            Ok((int_sqrt(amount_a * amount_b) - 1000) as i128)
        }
    } else {
        match lift(spec_mul_div_down(amount_a, total_supply, reserve_a)) {
            Err(e) => Err(e),
            Ok(liquidity_a) => match lift(spec_mul_div_down(amount_b, total_supply, reserve_b)) {
                Err(e) => Err(e),
                Ok(liquidity_b) => Ok(
                    if liquidity_a < liquidity_b {
                        liquidity_a
                    } else {
                        liquidity_b
                    },
                ),
            },
        }
    }
}

/// The number of shares to mint for a deposit of `amount_a` and `amount_b`.
///
/// Into an empty pool (`total_supply == 0`) the deposit earns the integer
/// square root of `amount_a * amount_b` less `MINIMUM_LIQUIDITY`, and fails
/// with `InsufficientLiquidity` unless that root exceeds `MINIMUM_LIQUIDITY`;
/// the root is exact however large the product is.
/// Into any other pool it earns the smaller of
/// `floor(amount_a * total_supply / reserve_a)` and
/// `floor(amount_b * total_supply / reserve_b)`. A non-positive amount is
/// `InvalidAmount`; arithmetic failures are passed on.
pub fn calculate_liquidity_tokens(
    amount_a: i128,
    amount_b: i128,
    reserve_a: i128,
    reserve_b: i128,
    total_supply: i128,
) -> (r: Result<i128, AstroSwapError>)
    ensures
        r == spec_calculate_liquidity_tokens(
            amount_a as int,
            amount_b as int,
            reserve_a as int,
            reserve_b as int,
            total_supply as int,
        ),
{
    if amount_a <= 0 || amount_b <= 0 {
        return Err(AstroSwapError::InvalidAmount);
    }
    if total_supply == 0 {
        proof {
            assert(amount_a * amount_b > 0) by (nonlinear_arith)
                requires
                    amount_a > 0,
                    amount_b > 0,
            ;
        }
        let liquidity = match amount_a.checked_mul(amount_b) {
            Some(product) => sqrt(product),
            None => math::sqrt_of_product(amount_a, amount_b),
        };
        if liquidity <= MINIMUM_LIQUIDITY {
            return Err(AstroSwapError::InsufficientLiquidity);
        }
        Ok(liquidity - MINIMUM_LIQUIDITY)
    } else {
        let liquidity_a = match mul_div_down(amount_a, total_supply, reserve_a) {
            Ok(v) => v,
            Err(e) => {
                return Err(e);
            },
        };
        let liquidity_b = match mul_div_down(amount_b, total_supply, reserve_b) {
            Ok(v) => v,
            Err(e) => {
                return Err(e);
            },
        };
        Ok(math::min(liquidity_a, liquidity_b))
    }
}

/// What `calculate_withdrawal_amounts` returns on each input.
pub open spec fn spec_calculate_withdrawal_amounts(
    shares: int,
    reserve_a: int,
    reserve_b: int,
    total_supply: int,
) -> Result<(i128, i128), AstroSwapError> {
    if shares <= 0 {
        Err(AstroSwapError::InvalidAmount)
    } else if total_supply <= 0 {
        Err(AstroSwapError::InsufficientLiquidity)
    } else if shares > total_supply {
        Err(AstroSwapError::InsufficientBalance)
    } else {
        match lift(spec_mul_div_down(shares, reserve_a, total_supply)) {
            Err(e) => Err(e),
            Ok(amount_a) => match lift(spec_mul_div_down(shares, reserve_b, total_supply)) {
                Err(e) => Err(e),
                Ok(amount_b) => Ok((amount_a, amount_b)),
            },
        }
    }
}

/// The amounts of both assets that `shares` redeem: for each asset,
/// `floor(shares * reserve / total_supply)`.
///
/// Non-positive `shares` are `InvalidAmount`; a non-positive `total_supply`
/// is `InsufficientLiquidity`; `shares` above `total_supply` are
/// `InsufficientBalance`; a negative reserve is `InvalidArgument`.
pub fn calculate_withdrawal_amounts(
    shares: i128,
    reserve_a: i128,
    reserve_b: i128,
    total_supply: i128,
) -> (r: Result<(i128, i128), AstroSwapError>)
    ensures
        r == spec_calculate_withdrawal_amounts(
            shares as int,
            reserve_a as int,
            reserve_b as int,
            total_supply as int,
        ),
{
    if shares <= 0 {
        return Err(AstroSwapError::InvalidAmount);
    }
    if total_supply <= 0 {
        return Err(AstroSwapError::InsufficientLiquidity);
    }
    if shares > total_supply {
        return Err(AstroSwapError::InsufficientBalance);
    }
    let amount_a = match mul_div_down(shares, reserve_a, total_supply) {
        Ok(v) => v,
        Err(e) => {
            return Err(e);
        },
    };
    let amount_b = match mul_div_down(shares, reserve_b, total_supply) {
        Ok(v) => v,
        Err(e) => {
            return Err(e);
        },
    };
    Ok((amount_a, amount_b))
}

/// What `calculate_price_impact` returns on each input.
pub open spec fn spec_calculate_price_impact(
    amount_in: int,
    reserve_in: int,
    reserve_out: int,
    fee_bps: int,
) -> Result<u32, AstroSwapError> {
    match lift(spec_mul_div_down(amount_in, reserve_out, reserve_in)) {
        Err(e) => Err(e),
        Ok(expected_out) => match spec_get_amount_out(amount_in, reserve_in, reserve_out, fee_bps) {
            Err(e) => Err(e),
            Ok(actual_out) => if expected_out == 0 {
                Ok(0u32)
            } else {
                Ok((((expected_out - actual_out) * 10_000) / (expected_out as int)) as u32)
            },
        },
    }
}

/// A swap never yields more than the proportional quote at the current ratio.
pub proof fn lemma_swap_output_at_most_quote(
    amount_in: int,
    reserve_in: int,
    reserve_out: int,
    fee_factor: int,
)
    requires
        amount_in > 0,
        reserve_in > 0,
        reserve_out > 0,
        0 <= fee_factor <= 10_000,
    ensures
        0 <= mul_div_floor(
            amount_in * fee_factor,
            reserve_out,
            reserve_in * 10_000 + amount_in * fee_factor,
        ) <= mul_div_floor(amount_in, reserve_out, reserve_in),
{
    let x = (amount_in * fee_factor) * reserve_out;
    let d = reserve_in * 10_000 + amount_in * fee_factor;
    let y = amount_in * reserve_out;
    let q = x / d;
    assert(amount_in * fee_factor >= 0) by (nonlinear_arith)
        requires
            amount_in > 0,
            fee_factor >= 0,
    ;
    assert(x >= 0) by (nonlinear_arith)
        requires
            x == (amount_in * fee_factor) * reserve_out,
            amount_in * fee_factor >= 0,
            reserve_out > 0,
    ;
    assert(0 <= q && q * d <= x) by (nonlinear_arith)
        requires
            q == x / d,
            x >= 0,
            d > 0,
    ;
    assert(x <= y * 10_000) by (nonlinear_arith)
        requires
            x == (amount_in * fee_factor) * reserve_out,
            y == amount_in * reserve_out,
            amount_in > 0,
            reserve_out > 0,
            0 <= fee_factor <= 10_000,
    ;
    assert(q * reserve_in <= y) by (nonlinear_arith)
        requires
            q >= 0,
            q * d <= x,
            x <= y * 10_000,
            d == reserve_in * 10_000 + amount_in * fee_factor,
            amount_in * fee_factor >= 0,
            reserve_in > 0,
    {
        assert(q * d == q * reserve_in * 10_000 + q * (amount_in * fee_factor));
        assert(q * (amount_in * fee_factor) >= 0);
    }
    assert(y / reserve_in >= q) by (nonlinear_arith)
        requires
            reserve_in > 0,
            y >= q * reserve_in,
    ;
}

/// The price impact of a swap in basis points: how far the swap's output
/// falls short of the proportional quote `floor(amount_in * reserve_out /
/// reserve_in)`, as a share of that quote, rounded down. Zero when the quote
/// itself is zero. The result is at most 10000.
///
/// Fails as `mul_div_down(amount_in, reserve_out, reserve_in)` does, and
/// then as `get_amount_out` does.
pub fn calculate_price_impact(
    amount_in: i128,
    reserve_in: i128,
    reserve_out: i128,
    fee_bps: u32,
) -> (r: Result<u32, AstroSwapError>)
    ensures
        r == spec_calculate_price_impact(
            amount_in as int,
            reserve_in as int,
            reserve_out as int,
            fee_bps as int,
        ),
        r matches Ok(impact) ==> impact <= 10_000,
{
    let expected_out = match mul_div_down(amount_in, reserve_out, reserve_in) {
        Ok(v) => v,
        Err(e) => {
            return Err(e);
        },
    };
    let actual_out = match get_amount_out(amount_in, reserve_in, reserve_out, fee_bps) {
        Ok(v) => v,
        Err(e) => {
            return Err(e);
        },
    };
    if expected_out == 0 {
        return Ok(0);
    }
    proof {
        lemma_swap_output_at_most_quote(
            amount_in as int,
            reserve_in as int,
            reserve_out as int,
            10_000 - fee_bps,
        );
    }
    let diff: i128 = expected_out - actual_out;
    proof {
        assert(0 <= (diff * 10_000) / (expected_out as int) <= 10_000) by (nonlinear_arith)
            requires
                0 <= diff <= expected_out,
                expected_out > 0,
        ;
    }
    match mul_div_down(diff, BPS_DENOMINATOR as i128, expected_out) {
        Ok(impact) => Ok(impact as u32),
        Err(e) => Err(e),
    }
}

/// The reward multiplier, in basis points, earned after staking for
/// `stake_duration_seconds`: 10000 up to seven days, 11000 up to fourteen,
/// 12000 up to thirty, 12500 up to sixty, and 13000 beyond.
pub fn calculate_staking_multiplier(stake_duration_seconds: u64) -> (r: u32)
    ensures
        r == if stake_duration_seconds <= 604_800 {
            10_000u32
        } else if stake_duration_seconds <= 1_209_600 {
            11_000u32
        } else if stake_duration_seconds <= 2_592_000 {
            12_000u32
        } else if stake_duration_seconds <= 5_184_000 {
            12_500u32
        } else {
            13_000u32
        },
{
    if stake_duration_seconds <= 604_800 {
        10_000
    } else if stake_duration_seconds <= 1_209_600 {
        11_000
    } else if stake_duration_seconds <= 2_592_000 {
        12_000
    } else if stake_duration_seconds <= 5_184_000 {
        12_500
    } else {
        13_000
    }
}

} // verus!
