//! Laws that relate several operations of the library to one another.
//!
//! Each law is a proof function: its `requires` names the situation, its
//! `ensures` states what then holds, and its body is the proof.

use crate::amm::lemma_amount_in_is_ceiling_plus_one;
use crate::amm::lemma_amount_out_is_floor;
use crate::amm::lemma_swap_keeps_product;
use crate::amm::spec_calculate_liquidity_tokens;
use crate::amm::spec_get_amount_in;
use crate::amm::spec_get_amount_out;
use crate::error::AstroSwapError;
use crate::math::int_sqrt;
use crate::math::lemma_floor_bounds;
use crate::math::lemma_part_of_amount;
use crate::math::lemma_product_nonnegative;
use crate::math::lemma_quotient_at_least;
use crate::math::lemma_root_of_product_is_bounded;
use crate::math::lemma_quotient_at_most;
use crate::math::mul_div_ceil;
use crate::math::mul_div_floor;
use crate::math::spec_mul_div_down;
use crate::pair::spec_acquire_lock;
use crate::pair::spec_counterpart;
use crate::pair::spec_pair_get_amount_in;
use crate::pair::spec_require_open;
use crate::pair::locked_by_deposit;
use crate::pair::spec_deposit;
use crate::pair::spec_initialize;
use crate::pair::spec_set_paused;
use crate::pair::spec_sync;
use crate::pair::spec_deposit_amounts;
use crate::pair::spec_pair_get_amount_out;
use crate::pair::spec_skim;
use crate::pair::spec_swap;
use crate::pair::spec_swap_from_balance;
use crate::pair::spec_withdraw;
use crate::pair::spec_withdraw_transfers;
use crate::pair::view_is_valid;
use crate::pair::PairView;
use crate::pair::ledger_rules_hold;
use crate::token::allowance_at;
use crate::token::balance_at;
use crate::token::lemma_balances_bounded_by_sum;
use crate::token::lemma_sum_after_insert;
use crate::token::no_negative_balance;
use crate::token::spec_approve;
use crate::token::spec_burn;
use crate::token::spec_burn_from;
use crate::token::spec_mint;
use crate::token::spec_transfer;
use crate::token::spec_transfer_from;
use crate::token::sum_of_balances;
use crate::token::LedgerView;
use crate::types::Address;
use crate::types::AssetTransfer;
use vstd::prelude::*;

verus! {

proof fn lemma_ceil_bounds(a: int, b: int, d: int)
    by (nonlinear_arith)
    requires
        d > 0,
    ensures
        (mul_div_ceil(a, b, d) - 1) * d < a * b <= mul_div_ceil(a, b, d) * d,
{
    let n = a * b;
    assert(n == (n / d) * d + n % d);
    assert(0 <= n % d < d);
}

/// Paying what `get_amount_in` asks yields at least the output asked for:
/// the quote never lets a trader pay less than the output requires.
pub proof fn law_quoted_input_yields_requested_output(
    amount_out: i128,
    reserve_in: i128,
    reserve_out: i128,
    fee_bps: u32,
)
    requires
        spec_get_amount_in(amount_out as int, reserve_in as int, reserve_out as int, fee_bps as int)
            is Ok,
        spec_get_amount_out(
            spec_get_amount_in(
                amount_out as int,
                reserve_in as int,
                reserve_out as int,
                fee_bps as int,
            )->Ok_0 as int,
            reserve_in as int,
            reserve_out as int,
            fee_bps as int,
        ) is Ok,
    ensures
        spec_get_amount_out(
            spec_get_amount_in(
                amount_out as int,
                reserve_in as int,
                reserve_out as int,
                fee_bps as int,
            )->Ok_0 as int,
            reserve_in as int,
            reserve_out as int,
            fee_bps as int,
        )->Ok_0 >= amount_out,
{
    let paid = spec_get_amount_in(
        amount_out as int,
        reserve_in as int,
        reserve_out as int,
        fee_bps as int,
    )->Ok_0;
    lemma_amount_in_is_ceiling_plus_one(amount_out, reserve_in, reserve_out, fee_bps);
    lemma_amount_out_is_floor(paid, reserve_in, reserve_out, fee_bps);
    let f = 10_000 - fee_bps;
    let scaled = reserve_in * 10_000;
    let d = (reserve_out - amount_out) * f;
    let c = mul_div_ceil(scaled, amount_out as int, d);
    lemma_ceil_bounds(scaled, amount_out as int, d);
    let with_fee = paid * f;
    let denominator = reserve_in * 10_000 + with_fee;
    assert(with_fee * reserve_out >= amount_out * denominator) by (nonlinear_arith)
        requires
            c * d >= scaled * amount_out,
            paid == c + 1,
            d == (reserve_out - amount_out) * f,
            d > 0,
            scaled == reserve_in * 10_000,
            with_fee == paid * f,
            denominator == reserve_in * 10_000 + with_fee,
    {
        assert(paid * d >= scaled * amount_out);
        assert(paid * d == paid * f * reserve_out - paid * f * amount_out);
    }
    assert(denominator > 0) by (nonlinear_arith)
        requires
            denominator == reserve_in * 10_000 + paid * f,
            reserve_in > 0,
            paid > 0,
            f > 0,
    ;
    lemma_quotient_at_least(with_fee * reserve_out, amount_out as int, denominator);
}

/// Asking `get_amount_in` for the output that `get_amount_out` quoted for an
/// input gives back at most that input and one unit more.
pub proof fn law_quoted_input_exceeds_spent_input_by_one_at_most(
    amount_in: i128,
    reserve_in: i128,
    reserve_out: i128,
    fee_bps: u32,
)
    requires
        spec_get_amount_out(amount_in as int, reserve_in as int, reserve_out as int, fee_bps as int)
            is Ok,
        spec_get_amount_in(
            spec_get_amount_out(
                amount_in as int,
                reserve_in as int,
                reserve_out as int,
                fee_bps as int,
            )->Ok_0 as int,
            reserve_in as int,
            reserve_out as int,
            fee_bps as int,
        ) is Ok,
    ensures
        spec_get_amount_in(
            spec_get_amount_out(
                amount_in as int,
                reserve_in as int,
                reserve_out as int,
                fee_bps as int,
            )->Ok_0 as int,
            reserve_in as int,
            reserve_out as int,
            fee_bps as int,
        )->Ok_0 <= amount_in + 1,
{
    let got = spec_get_amount_out(
        amount_in as int,
        reserve_in as int,
        reserve_out as int,
        fee_bps as int,
    )->Ok_0;
    lemma_amount_out_is_floor(amount_in, reserve_in, reserve_out, fee_bps);
    lemma_amount_in_is_ceiling_plus_one(got, reserve_in, reserve_out, fee_bps);
    let f = 10_000 - fee_bps;
    let with_fee = amount_in * f;
    let denominator = reserve_in * 10_000 + with_fee;
    assert(denominator > 0) by (nonlinear_arith)
        requires
            denominator == reserve_in * 10_000 + amount_in * f,
            reserve_in > 0,
            amount_in > 0,
            f > 0,
    ;
    lemma_floor_bounds(with_fee * reserve_out, denominator);
    let scaled = reserve_in * 10_000;
    let d = (reserve_out - got) * f;
    lemma_ceil_bounds(scaled, got as int, d);
    let c = mul_div_ceil(scaled, got as int, d);
    assert(c <= amount_in) by (nonlinear_arith)
        requires
            got * denominator <= with_fee * reserve_out,
            denominator == reserve_in * 10_000 + with_fee,
            with_fee == amount_in * f,
            scaled == reserve_in * 10_000,
            d == (reserve_out - got) * f,
            d > 0,
            (c - 1) * d < scaled * got,
    {
        assert(scaled * got <= amount_in * d) by {
            assert(got * denominator == got * scaled + got * (amount_in * f));
            assert(amount_in * d == (amount_in * f) * reserve_out - got * (amount_in * f));
        }
        assert((c - 1) * d < amount_in * d);
    }
}

/// When the input quoted for a quoted output is at least the input spent:
/// exactly when the output, priced at the reserves, is worth more than the
/// input less two units.
///
/// Rounding the output down can make it much cheaper than the input that
/// bought it, so the comparison does not hold of every input.
pub proof fn law_when_quoted_input_covers_spent_input(
    amount_in: i128,
    reserve_in: i128,
    reserve_out: i128,
    fee_bps: u32,
)
    requires
        spec_get_amount_out(amount_in as int, reserve_in as int, reserve_out as int, fee_bps as int)
            is Ok,
        spec_get_amount_in(
            spec_get_amount_out(
                amount_in as int,
                reserve_in as int,
                reserve_out as int,
                fee_bps as int,
            )->Ok_0 as int,
            reserve_in as int,
            reserve_out as int,
            fee_bps as int,
        ) is Ok,
    ensures
        ({
            let got = spec_get_amount_out(
                amount_in as int,
                reserve_in as int,
                reserve_out as int,
                fee_bps as int,
            )->Ok_0;
            let quoted = spec_get_amount_in(
                got as int,
                reserve_in as int,
                reserve_out as int,
                fee_bps as int,
            )->Ok_0;
            quoted >= amount_in <==> reserve_in * 10_000 * got > (amount_in - 2) * ((reserve_out
                - got) * (10_000 - fee_bps))
        }),
{
    let got = spec_get_amount_out(
        amount_in as int,
        reserve_in as int,
        reserve_out as int,
        fee_bps as int,
    )->Ok_0;
    lemma_amount_out_is_floor(amount_in, reserve_in, reserve_out, fee_bps);
    lemma_amount_in_is_ceiling_plus_one(got, reserve_in, reserve_out, fee_bps);
    let f = 10_000 - fee_bps;
    let scaled = reserve_in * 10_000;
    let d = (reserve_out - got) * f;
    lemma_ceil_bounds(scaled, got as int, d);
    let c = mul_div_ceil(scaled, got as int, d);
    assert(c >= amount_in - 1 <==> scaled * got > (amount_in - 2) * d) by (nonlinear_arith)
        requires
            d > 0,
            (c - 1) * d < scaled * got <= c * d,
    {
        if c >= amount_in - 1 {
            assert((c - 1) * d >= (amount_in - 2) * d);
        } else {
            assert(c * d <= (amount_in - 2) * d);
        }
    }
}

/// When the output quoted for a quoted input is at most the output asked
/// for: exactly when the quoted input is too little to buy one unit more.
///
/// The quoted input is rounded up and raised by one, so it often buys more
/// than was asked for, and the comparison does not hold of every output.
pub proof fn law_when_requested_output_covers_quoted_output(
    amount_out: i128,
    reserve_in: i128,
    reserve_out: i128,
    fee_bps: u32,
)
    requires
        spec_get_amount_in(amount_out as int, reserve_in as int, reserve_out as int, fee_bps as int)
            is Ok,
        spec_get_amount_out(
            spec_get_amount_in(
                amount_out as int,
                reserve_in as int,
                reserve_out as int,
                fee_bps as int,
            )->Ok_0 as int,
            reserve_in as int,
            reserve_out as int,
            fee_bps as int,
        ) is Ok,
    ensures
        ({
            let paid = spec_get_amount_in(
                amount_out as int,
                reserve_in as int,
                reserve_out as int,
                fee_bps as int,
            )->Ok_0;
            let got = spec_get_amount_out(
                paid as int,
                reserve_in as int,
                reserve_out as int,
                fee_bps as int,
            )->Ok_0;
            got <= amount_out <==> (paid * (10_000 - fee_bps)) * reserve_out < (amount_out + 1)
                * (reserve_in * 10_000 + paid * (10_000 - fee_bps))
        }),
{
    let paid = spec_get_amount_in(
        amount_out as int,
        reserve_in as int,
        reserve_out as int,
        fee_bps as int,
    )->Ok_0;
    lemma_amount_in_is_ceiling_plus_one(amount_out, reserve_in, reserve_out, fee_bps);
    lemma_amount_out_is_floor(paid, reserve_in, reserve_out, fee_bps);
    let f = 10_000 - fee_bps;
    let with_fee = paid * f;
    let denominator = reserve_in * 10_000 + with_fee;
    assert(denominator > 0) by (nonlinear_arith)
        requires
            denominator == reserve_in * 10_000 + paid * f,
            reserve_in > 0,
            paid > 0,
            f >= 0,
    ;
    lemma_floor_bounds(with_fee * reserve_out, denominator);
    let got = (with_fee * reserve_out) / denominator;
    assert(got <= amount_out <==> with_fee * reserve_out < (amount_out + 1) * denominator)
        by (nonlinear_arith)
        requires
            denominator > 0,
            got * denominator <= with_fee * reserve_out < (got + 1) * denominator,
    {
        if got <= amount_out {
            assert((got + 1) * denominator <= (amount_out + 1) * denominator);
        } else {
            assert(got * denominator >= (amount_out + 1) * denominator);
        }
    }
}

proof fn lemma_rules_after_insert(before: LedgerView, who: Address, amount: int, supply: int)
    requires
        ledger_rules_hold(before),
        amount >= 0,
        supply == before.total_supply - balance_at(before.balances, who) + amount,
        supply <= i128::MAX,
    ensures
        ledger_rules_hold(
            LedgerView {
                total_supply: supply,
                balances: before.balances.insert(who, amount),
                allowances: before.allowances,
            },
        ),
{
    let after = before.balances.insert(who, amount);
    lemma_sum_after_insert(before.balances, who, amount);
    assert(no_negative_balance(after)) by {
        assert forall|other: Address| after.dom().contains(other) implies #[trigger] after[other]
            >= 0 by {
            if other != who {
                assert(balance_at(before.balances, other) >= 0);
            }
        }
    }
    assert forall|other: Address| 0 <= #[trigger] balance_at(after, other) <= supply by {
        lemma_balances_bounded_by_sum(after, other, other);
    }
}

/// Every operation on the share ledger keeps the ledger's rules: afterwards
/// the supply is again the sum of all balances, and no balance or
/// allowance is negative.
pub proof fn law_ledger_operations_keep_the_rules(
    before: LedgerView,
    actor: Address,
    from: Address,
    to: Address,
    amount: i128,
)
    requires
        ledger_rules_hold(before),
    ensures
        spec_mint(before, to, amount as int) matches Ok(after) ==> ledger_rules_hold(after),
        spec_burn(before, from, amount as int) matches Ok(after) ==> ledger_rules_hold(after),
        spec_transfer(before, from, to, amount as int) matches Ok(after) ==> ledger_rules_hold(after),
        spec_transfer_from(before, actor, from, to, amount as int) matches Ok(after)
            ==> ledger_rules_hold(after),
        spec_approve(before, from, actor, amount as int) matches Ok(after) ==> ledger_rules_hold(after),
        spec_burn_from(before, actor, from, amount as int) matches Ok(after) ==> ledger_rules_hold(
            after,
        ),
{
    let held_from = balance_at(before.balances, from);
    let held_to = balance_at(before.balances, to);
    assert(no_negative_balance(before.balances)) by {
        assert forall|who: Address| before.balances.dom().contains(who) implies #[trigger]
            before.balances[who] >= 0 by {
            assert(balance_at(before.balances, who) >= 0);
        }
    }
    assert(0 <= held_from <= before.total_supply);
    assert(0 <= held_to <= before.total_supply);
    let granted = allowance_at(before.allowances, from, actor);
    assert(0 <= granted <= i128::MAX);
    if spec_mint(before, to, amount as int) is Ok {
        lemma_rules_after_insert(before, to, held_to + amount, before.total_supply + amount);
    }
    if spec_burn(before, from, amount as int) is Ok {
        lemma_rules_after_insert(before, from, held_from - amount, before.total_supply - amount);
    }
    if spec_transfer(before, from, to, amount as int) is Ok {
        lemma_rules_after_insert(before, from, held_from - amount, before.total_supply - amount);
        let debited = LedgerView {
            total_supply: before.total_supply - amount,
            balances: before.balances.insert(from, held_from - amount),
            allowances: before.allowances,
        };
        lemma_balances_bounded_by_sum(before.balances, from, to);
        lemma_rules_after_insert(
            debited,
            to,
            balance_at(debited.balances, to) + amount,
            before.total_supply,
        );
    }
    let spent = LedgerView {
        allowances: before.allowances.insert((from, actor), granted - amount),
        ..before
    };
    if granted >= amount && amount >= 0 {
        assert(ledger_rules_hold(spent)) by {
            assert forall|owner: Address, spender: Address|
                0 <= #[trigger] allowance_at(spent.allowances, owner, spender) <= i128::MAX by {
                assert(0 <= allowance_at(before.allowances, owner, spender) <= i128::MAX);
            }
        }
    }
    if spec_transfer_from(before, actor, from, to, amount as int) is Ok {
        lemma_rules_after_insert(spent, from, held_from - amount, before.total_supply - amount);
        let debited = LedgerView {
            total_supply: before.total_supply - amount,
            balances: before.balances.insert(from, held_from - amount),
            allowances: spent.allowances,
        };
        lemma_balances_bounded_by_sum(before.balances, from, to);
        lemma_rules_after_insert(
            debited,
            to,
            balance_at(debited.balances, to) + amount,
            before.total_supply,
        );
    }
    if spec_approve(before, from, actor, amount as int) is Ok {
        let after = spec_approve(before, from, actor, amount as int)->Ok_0;
        assert forall|owner: Address, spender: Address|
            0 <= #[trigger] allowance_at(after.allowances, owner, spender) <= i128::MAX by {
            assert(0 <= allowance_at(before.allowances, owner, spender) <= i128::MAX);
        }
    }
    if spec_burn_from(before, actor, from, amount as int) is Ok {
        lemma_rules_after_insert(spent, from, held_from - amount, before.total_supply - amount);
    }
}


/// Every operation on a pool keeps the rules of its share ledger: after a
/// deposit or a withdrawal the supply is again the sum of all balances, and
/// a swap, a sync, a skim and the gates leave the ledger as it is.
pub proof fn law_pool_operations_keep_the_ledger_rules(
    pool: PairView,
    user: Address,
    token: Address,
    a: i128,
    b: i128,
    c: i128,
    d: i128,
    flag: bool,
)
    requires
        view_is_valid(pool),
    ensures
        spec_deposit(pool, user, a as int, b as int, c as int, d as int) matches Ok(done)
            ==> ledger_rules_hold(done.1.shares),
        spec_withdraw(pool, user, a as int, b as int, c as int) matches Ok(done)
            ==> ledger_rules_hold(done.1.shares),
        spec_swap(pool, user, token, a as int, b as int) matches Ok(done) ==> done.1.shares
            == pool.shares,
        spec_swap_from_balance(pool, token, a as int, b as int, c as int) matches Ok(done)
            ==> done.1.shares == pool.shares,
        spec_sync(pool, user, a as int, b as int) matches Ok(done) ==> done.1.shares
            == pool.shares,
        spec_skim(pool, user, a as int, b as int) matches Ok(done) ==> done.1.shares
            == pool.shares,
        spec_set_paused(pool, user, flag) matches Ok(done) ==> done.1.shares == pool.shares,
        spec_acquire_lock(pool) matches Ok(done) ==> done.1.shares == pool.shares,
        spec_initialize(pool, user, token, user) matches Ok(done) ==> done.1.shares
            == pool.shares,
{
    let deposited = spec_deposit(pool, user, a as int, b as int, c as int, d as int);
    if deposited is Ok {
        let shares = deposited->Ok_0.0.2;
        let locked = locked_by_deposit(pool);
        let own = pool.address;
        assert(0 <= balance_at(pool.shares.balances, own) <= pool.shares.total_supply);
        assert(0 <= balance_at(pool.shares.balances, user) <= pool.shares.total_supply);
        if locked == 0 {
            law_ledger_operations_keep_the_rules(pool.shares, user, user, user, shares);
            assert(spec_mint(pool.shares, user, shares as int) is Ok);
        } else {
            law_ledger_operations_keep_the_rules(pool.shares, own, own, own, 1000);
            assert(spec_mint(pool.shares, own, 1000) is Ok);
            let with_lock = spec_mint(pool.shares, own, 1000)->Ok_0;
            law_ledger_operations_keep_the_rules(with_lock, user, user, user, shares);
            assert(spec_mint(with_lock, user, shares as int) is Ok);
        }
    }
    let withdrawn = spec_withdraw(pool, user, a as int, b as int, c as int);
    if withdrawn is Ok {
        law_ledger_operations_keep_the_rules(pool.shares, user, user, user, a);
        assert(spec_burn(pool.shares, user, a as int) is Ok);
    }
}


/// What a result of a pool operation is on a pool that holds other shares:
/// the same value, and the same pool but for the shares.
pub open spec fn with_shares<T>(
    outcome: Result<(T, PairView), AstroSwapError>,
    shares: LedgerView,
) -> Result<(T, PairView), AstroSwapError> {
    match outcome {
        Ok((value, after)) => Ok((value, PairView { shares, ..after })),
        Err(e) => Err(e),
    }
}

/// Swaps, syncs, skims, the gates and the quotes neither read nor change
/// the shares: on a pool that differs in its shares alone each of them
/// returns the same and leaves the same reserves, recorded product, fee,
/// assets and gates behind, with the shares as they were. So a caller that
/// keeps the shares elsewhere may run them on the pool without its shares.
pub proof fn law_trades_do_not_read_the_shares(
    pool: PairView,
    shares: LedgerView,
    user: Address,
    token: Address,
    other: Address,
    a: int,
    b: int,
    c: int,
    flag: bool,
)
    ensures
        ({
            let bare = PairView { shares, ..pool };
            &&& spec_swap(bare, user, token, a, b) == with_shares(
                spec_swap(pool, user, token, a, b),
                shares,
            )
            &&& spec_swap_from_balance(bare, token, a, b, c) == with_shares(
                spec_swap_from_balance(pool, token, a, b, c),
                shares,
            )
            &&& spec_sync(bare, user, a, b) == with_shares(spec_sync(pool, user, a, b), shares)
            &&& spec_skim(bare, user, a, b) == with_shares(spec_skim(pool, user, a, b), shares)
            &&& spec_set_paused(bare, user, flag) == with_shares(
                spec_set_paused(pool, user, flag),
                shares,
            )
            &&& spec_acquire_lock(bare) == with_shares(spec_acquire_lock(pool), shares)
            &&& spec_initialize(bare, user, token, other) == with_shares(
                spec_initialize(pool, user, token, other),
                shares,
            )
            &&& spec_require_open(bare) == spec_require_open(pool)
            &&& spec_pair_get_amount_out(bare, a, token) == spec_pair_get_amount_out(
                pool,
                a,
                token,
            )
            &&& spec_pair_get_amount_in(bare, a, token) == spec_pair_get_amount_in(pool, a, token)
            &&& spec_counterpart(bare, token) == spec_counterpart(pool, token)
        }),
{
}


/// No successful swap lowers the product of the reserves, whichever way the
/// swap is entered.
pub proof fn law_swap_never_lowers_product(
    pool: PairView,
    user: Address,
    token_in: Address,
    amount_in: i128,
    min_out: i128,
    balance_0: i128,
    balance_1: i128,
)
    requires
        view_is_valid(pool),
    ensures
        spec_swap(pool, user, token_in, amount_in as int, min_out as int) matches Ok(done)
            ==> done.1.reserve_0 * done.1.reserve_1 >= pool.reserve_0 * pool.reserve_1,
        spec_swap_from_balance(
            pool,
            token_in,
            min_out as int,
            balance_0 as int,
            balance_1 as int,
        ) matches Ok(done) ==> done.1.reserve_0 * done.1.reserve_1 >= pool.reserve_0
            * pool.reserve_1,
{
    if spec_swap(pool, user, token_in, amount_in as int, min_out as int) is Ok {
        let zero_in = token_in == pool.config->0.token_0;
        let reserve_in = if zero_in {
            pool.reserve_0
        } else {
            pool.reserve_1
        };
        let reserve_out = if zero_in {
            pool.reserve_1
        } else {
            pool.reserve_0
        };
        lemma_amount_out_is_floor(
            amount_in,
            reserve_in as i128,
            reserve_out as i128,
            pool.fee_bps as u32,
        );
        lemma_swap_keeps_product(amount_in as int, reserve_in, reserve_out, 10_000 - pool.fee_bps);
        let amount_out = spec_get_amount_out(
            amount_in as int,
            reserve_in,
            reserve_out,
            pool.fee_bps,
        )->Ok_0;
        assert((reserve_out - amount_out) * (reserve_in + amount_in) == (reserve_in + amount_in)
            * (reserve_out - amount_out)) by (nonlinear_arith);
        assert(reserve_out * reserve_in == reserve_in * reserve_out) by (nonlinear_arith);
    }
    let from_balance = spec_swap_from_balance(
        pool,
        token_in,
        min_out as int,
        balance_0 as int,
        balance_1 as int,
    );
    if from_balance is Ok {
        let after = from_balance->Ok_0.1;
        assert(after.reserve_0 * after.reserve_1 == after.reserve_1 * after.reserve_0)
            by (nonlinear_arith);
    }
}


/// A swap that asks for no more than the pool has just quoted does not fail
/// on slippage.
pub proof fn law_quoted_output_passes_slippage_check(
    pool: PairView,
    user: Address,
    token_in: Address,
    amount_in: int,
)
    requires
        spec_pair_get_amount_out(pool, amount_in, token_in) is Ok,
    ensures
        spec_swap(
            pool,
            user,
            token_in,
            amount_in,
            spec_pair_get_amount_out(pool, amount_in, token_in)->Ok_0 as int,
        ) != Err::<(i128, PairView), AstroSwapError>(AstroSwapError::SlippageExceeded),
{
}

/// While a pool is paused, deposits, withdrawals and both kinds of swap
/// fail with `ContractPaused`, whatever their arguments and whether the
/// lock is open or closed.
pub proof fn law_paused_pool_refuses_every_trade(
    pool: PairView,
    user: Address,
    token: Address,
    a: int,
    b: int,
    c: int,
    d: int,
)
    requires
        pool.paused,
    ensures
        spec_deposit(pool, user, a, b, c, d) == Err::<((i128, i128, i128), PairView), AstroSwapError>(
            AstroSwapError::ContractPaused,
        ),
        spec_withdraw(pool, user, a, b, c) == Err::<((i128, i128), PairView), AstroSwapError>(
            AstroSwapError::ContractPaused,
        ),
        spec_swap(pool, user, token, a, b) == Err::<(i128, PairView), AstroSwapError>(
            AstroSwapError::ContractPaused,
        ),
        spec_swap_from_balance(pool, token, a, b, c) == Err::<
            ((i128, i128), PairView),
            AstroSwapError,
        >(AstroSwapError::ContractPaused),
{
}

/// While the lock is closed, every guarded entry point of a pool that is
/// not paused fails with `Reentrancy`, whatever its arguments. A skim and a
/// second closing of the lock fail so on a paused pool as well.
pub proof fn law_closed_lock_refuses_every_entry(
    pool: PairView,
    user: Address,
    token: Address,
    a: int,
    b: int,
    c: int,
    d: int,
)
    requires
        pool.locked,
    ensures
        !pool.paused ==> spec_deposit(pool, user, a, b, c, d) == Err::<
            ((i128, i128, i128), PairView),
            AstroSwapError,
        >(AstroSwapError::Reentrancy),
        !pool.paused ==> spec_withdraw(pool, user, a, b, c) == Err::<
            ((i128, i128), PairView),
            AstroSwapError,
        >(AstroSwapError::Reentrancy),
        !pool.paused ==> spec_swap(pool, user, token, a, b) == Err::<
            (i128, PairView),
            AstroSwapError,
        >(AstroSwapError::Reentrancy),
        !pool.paused ==> spec_swap_from_balance(pool, token, a, b, c) == Err::<
            ((i128, i128), PairView),
            AstroSwapError,
        >(AstroSwapError::Reentrancy),
        spec_skim(pool, user, a, b) == Err::<((i128, i128), PairView), AstroSwapError>(
            AstroSwapError::Reentrancy,
        ),
        spec_acquire_lock(pool) == Err::<((), PairView), AstroSwapError>(
            AstroSwapError::Reentrancy,
        ),
{
}

/// A withdrawal of more shares than the caller holds is refused with
/// `InsufficientBalance`, whatever minimums it names: no balance is ever
/// lowered below zero.
pub proof fn law_withdraw_beyond_balance_is_refused(
    pool: PairView,
    user: Address,
    shares: i128,
    amount_0_min: i128,
    amount_1_min: i128,
)
    requires
        !pool.paused,
        !pool.locked,
        pool.config is Some,
        user != pool.address,
        shares > 0,
        shares > balance_at(pool.shares.balances, user),
    ensures
        spec_withdraw(pool, user, shares as int, amount_0_min as int, amount_1_min as int)
            == Err::<((i128, i128), PairView), AstroSwapError>(
            AstroSwapError::InsufficientBalance,
        ),
{
}

/// A withdrawal of shares that the caller holds pays the pro-rata part of
/// both reserves, rounded down, and accounts for it everywhere: the
/// caller's balance and the supply fall by the shares, the supply is again
/// the sum of all balances, the reserves fall by what is paid and are not
/// negative, the lock is open, and what has to move is exactly the two
/// amounts, from the pool to the caller. The one condition is that the
/// product of the remaining reserves, which a withdrawal records, fits in
/// an `i128`.
pub proof fn law_withdraw_pays_the_pro_rata_part(
    pool: PairView,
    user: Address,
    shares: i128,
    amount_0_min: i128,
    amount_1_min: i128,
)
    requires
        view_is_valid(pool),
        !pool.paused,
        !pool.locked,
        pool.config is Some,
        user != pool.address,
        0 < shares <= balance_at(pool.shares.balances, user),
        mul_div_floor(shares as int, pool.reserve_0, pool.shares.total_supply) >= amount_0_min,
        mul_div_floor(shares as int, pool.reserve_1, pool.shares.total_supply) >= amount_1_min,
        (pool.reserve_0 - mul_div_floor(shares as int, pool.reserve_0, pool.shares.total_supply))
            * (pool.reserve_1 - mul_div_floor(
            shares as int,
            pool.reserve_1,
            pool.shares.total_supply,
        )) <= i128::MAX,
    ensures
        ({
            let paid_0 = mul_div_floor(shares as int, pool.reserve_0, pool.shares.total_supply);
            let paid_1 = mul_div_floor(shares as int, pool.reserve_1, pool.shares.total_supply);
            let outcome = spec_withdraw(
                pool,
                user,
                shares as int,
                amount_0_min as int,
                amount_1_min as int,
            );
            &&& outcome is Ok
            &&& outcome->Ok_0.0.0 == paid_0
            &&& outcome->Ok_0.0.1 == paid_1
            &&& 0 <= paid_0 <= pool.reserve_0
            &&& 0 <= paid_1 <= pool.reserve_1
            &&& outcome->Ok_0.1.reserve_0 == pool.reserve_0 - paid_0
            &&& outcome->Ok_0.1.reserve_1 == pool.reserve_1 - paid_1
            &&& balance_at(outcome->Ok_0.1.shares.balances, user) == balance_at(
                pool.shares.balances,
                user,
            ) - shares
            &&& outcome->Ok_0.1.shares.total_supply == pool.shares.total_supply - shares
            &&& outcome->Ok_0.1.shares.total_supply == sum_of_balances(
                outcome->Ok_0.1.shares.balances,
            )
            &&& !outcome->Ok_0.1.locked
            &&& spec_withdraw_transfers(pool, user, paid_0 as i128, paid_1 as i128) == Some(
                (
                    AssetTransfer {
                        asset: pool.config->0.token_0,
                        from: pool.address,
                        to: user,
                        amount: paid_0 as i128,
                    },
                    AssetTransfer {
                        asset: pool.config->0.token_1,
                        from: pool.address,
                        to: user,
                        amount: paid_1 as i128,
                    },
                ),
            )
        }),
{
    let supply = pool.shares.total_supply;
    assert(0 <= balance_at(pool.shares.balances, user) <= supply);
    lemma_part_of_amount(shares as int, supply, pool.reserve_0);
    lemma_part_of_amount(shares as int, supply, pool.reserve_1);
    law_pool_operations_keep_the_ledger_rules(
        pool,
        user,
        user,
        shares,
        amount_0_min,
        amount_1_min,
        0,
        false,
    );
}

/// Once a pool has its factory and its assets, no operation changes them,
/// and an initialised pool cannot be initialised again.
pub proof fn law_assets_are_fixed_once_set(
    pool: PairView,
    user: Address,
    token: Address,
    other: Address,
    a: int,
    b: int,
    c: int,
    d: int,
    flag: bool,
)
    requires
        pool.config is Some,
    ensures
        spec_initialize(pool, user, token, other) == Err::<((), PairView), AstroSwapError>(
            AstroSwapError::AlreadyInitialized,
        ),
        spec_deposit(pool, user, a, b, c, d) matches Ok(done) ==> done.1.config == pool.config,
        spec_withdraw(pool, user, a, b, c) matches Ok(done) ==> done.1.config == pool.config,
        spec_swap(pool, user, token, a, b) matches Ok(done) ==> done.1.config == pool.config,
        spec_swap_from_balance(pool, token, a, b, c) matches Ok(done) ==> done.1.config
            == pool.config,
        spec_sync(pool, user, a, b) matches Ok(done) ==> done.1.config == pool.config,
        spec_skim(pool, user, a, b) matches Ok(done) ==> done.1 == pool,
        spec_set_paused(pool, user, flag) matches Ok(done) ==> done.1.config == pool.config,
        spec_acquire_lock(pool) matches Ok(done) ==> done.1.config == pool.config,
{
}


/// The first deposit into a pool takes the desired amounts as they are,
/// earns the integer square root of their product less the minimum
/// liquidity, and leaves exactly the minimum liquidity with the pool's own
/// account: the supply exceeds the depositor's balance by 1000.
pub proof fn law_first_deposit_locks_minimum_liquidity(
    pool: PairView,
    user: Address,
    amount_0: i128,
    amount_1: i128,
    amount_0_min: i128,
    amount_1_min: i128,
)
    requires
        view_is_valid(pool),
        pool.shares.total_supply == 0,
        spec_deposit(
            pool,
            user,
            amount_0 as int,
            amount_1 as int,
            amount_0_min as int,
            amount_1_min as int,
        ) is Ok,
    ensures
        ({
            let outcome = spec_deposit(
                pool,
                user,
                amount_0 as int,
                amount_1 as int,
                amount_0_min as int,
                amount_1_min as int,
            )->Ok_0;
            let after = outcome.1;
            &&& outcome.0.0 == amount_0
            &&& outcome.0.1 == amount_1
            &&& outcome.0.2 == int_sqrt(amount_0 * amount_1) - 1000
            &&& balance_at(after.shares.balances, user) == outcome.0.2
            &&& balance_at(after.shares.balances, pool.address) == 1000
            &&& after.shares.total_supply - balance_at(after.shares.balances, user) == 1000
        }),
{
    assert(balance_at(pool.shares.balances, user) == 0);
    assert(balance_at(pool.shares.balances, pool.address) == 0);
    let product = amount_0 * amount_1;
    assert(product > 0) by (nonlinear_arith)
        requires
            product == amount_0 * amount_1,
            amount_0 > 0,
            amount_1 > 0,
    ;
    lemma_root_of_product_is_bounded(amount_0 as int, amount_1 as int);
}

proof fn lemma_redeemed_part_is_at_most_paid(
    shares: int,
    paid: int,
    reserve: int,
    supply: int,
    locked: int,
)
    by (nonlinear_arith)
    requires
        shares > 0,
        paid >= 0,
        reserve >= 0,
        supply >= 0,
        locked >= 0,
        shares * reserve <= paid * (supply + locked),
    ensures
        (shares * (reserve + paid)) / (supply + locked + shares) <= paid,
{
    assert(shares * (reserve + paid) == shares * reserve + shares * paid);
    assert(paid * (supply + locked + shares) == paid * (supply + locked) + shares * paid);
    assert(shares * (reserve + paid) <= paid * (supply + locked + shares));
    assert(shares * (reserve + paid) < (paid + 1) * (supply + locked + shares));
}

proof fn lemma_smaller_share(shares: int, larger: int, reserve: int, bound: int)
    by (nonlinear_arith)
    requires
        0 <= shares <= larger,
        reserve >= 0,
        larger * reserve <= bound,
    ensures
        shares * reserve <= bound,
{
}

/// Redeeming at once the shares that a deposit has earned returns no more
/// of either asset than the deposit took, and leaves the depositor with the
/// shares held before. This holds of every pool whose reserves are all
/// backed by shares: one that has shares, or has no reserves either.
pub proof fn law_deposit_then_withdraw_returns_no_more(
    pool: PairView,
    user: Address,
    amount_0_desired: i128,
    amount_1_desired: i128,
    amount_0_min: i128,
    amount_1_min: i128,
)
    requires
        view_is_valid(pool),
        pool.shares.total_supply != 0 || (pool.reserve_0 == 0 && pool.reserve_1 == 0),
        spec_deposit(
            pool,
            user,
            amount_0_desired as int,
            amount_1_desired as int,
            amount_0_min as int,
            amount_1_min as int,
        ) is Ok,
        ({
            let deposited = spec_deposit(
                pool,
                user,
                amount_0_desired as int,
                amount_1_desired as int,
                amount_0_min as int,
                amount_1_min as int,
            )->Ok_0;
            spec_withdraw(deposited.1, user, deposited.0.2 as int, 0, 0) is Ok
        }),
    ensures
        ({
            let deposited = spec_deposit(
                pool,
                user,
                amount_0_desired as int,
                amount_1_desired as int,
                amount_0_min as int,
                amount_1_min as int,
            )->Ok_0;
            let withdrawn = spec_withdraw(deposited.1, user, deposited.0.2 as int, 0, 0)->Ok_0;
            &&& withdrawn.0.0 <= deposited.0.0
            &&& withdrawn.0.1 <= deposited.0.1
            &&& balance_at(withdrawn.1.shares.balances, user) == balance_at(
                pool.shares.balances,
                user,
            )
        }),
{
    let deposited = spec_deposit(
        pool,
        user,
        amount_0_desired as int,
        amount_1_desired as int,
        amount_0_min as int,
        amount_1_min as int,
    )->Ok_0;
    let paid_0 = deposited.0.0 as int;
    let paid_1 = deposited.0.1 as int;
    let shares = deposited.0.2 as int;
    let supply = pool.shares.total_supply;
    let locked = locked_by_deposit(pool);
    let amounts = spec_deposit_amounts(
        pool,
        amount_0_desired as int,
        amount_1_desired as int,
        amount_0_min as int,
        amount_1_min as int,
    );
    assert(amounts == Ok::<(i128, i128), AstroSwapError>((deposited.0.0, deposited.0.1)));
    let minted = spec_calculate_liquidity_tokens(
        paid_0,
        paid_1,
        pool.reserve_0,
        pool.reserve_1,
        supply,
    );
    assert(minted == Ok::<i128, AstroSwapError>(deposited.0.2));
    assert(paid_0 > 0 && paid_1 > 0 && shares > 0);
    if supply == 0 {
        assert(shares * pool.reserve_0 <= paid_0 * (supply + locked)) by (nonlinear_arith)
            requires
                pool.reserve_0 == 0,
                paid_0 > 0,
                supply + locked >= 0,
        ;
        assert(shares * pool.reserve_1 <= paid_1 * (supply + locked)) by (nonlinear_arith)
            requires
                pool.reserve_1 == 0,
                paid_1 > 0,
                supply + locked >= 0,
        ;
    } else {
        let share_0 = spec_mul_div_down(paid_0, supply, pool.reserve_0);
        let share_1 = spec_mul_div_down(paid_1, supply, pool.reserve_1);
        assert(share_0 is Ok && share_1 is Ok);
        assert(pool.reserve_0 > 0 && pool.reserve_1 > 0);
        lemma_product_nonnegative(paid_0, supply);
        lemma_product_nonnegative(paid_1, supply);
        lemma_floor_bounds(paid_0 * supply, pool.reserve_0);
        lemma_floor_bounds(paid_1 * supply, pool.reserve_1);
        lemma_quotient_at_most(paid_0 * supply, pool.reserve_0);
        lemma_quotient_at_most(paid_1 * supply, pool.reserve_1);
        let larger_0 = mul_div_floor(paid_0, supply, pool.reserve_0);
        let larger_1 = mul_div_floor(paid_1, supply, pool.reserve_1);
        assert(shares <= larger_0 && shares <= larger_1);
        lemma_smaller_share(shares, larger_0, pool.reserve_0, paid_0 * supply);
        lemma_smaller_share(shares, larger_1, pool.reserve_1, paid_1 * supply);
    }
    lemma_redeemed_part_is_at_most_paid(shares, paid_0, pool.reserve_0, supply, locked);
    lemma_redeemed_part_is_at_most_paid(shares, paid_1, pool.reserve_1, supply, locked);
    let middle = deposited.1;
    assert(middle.reserve_0 == pool.reserve_0 + paid_0);
    assert(middle.reserve_1 == pool.reserve_1 + paid_1);
    assert(middle.shares.total_supply == supply + locked + shares);
    assert(balance_at(pool.shares.balances, user) >= 0);
    assert(balance_at(middle.shares.balances, user) == balance_at(pool.shares.balances, user)
        + shares);
}


} // verus!
