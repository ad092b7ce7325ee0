//! The pool itself: two reserves, a share ledger, a fee, and the gates that
//! guard every operation that changes them.
//!
//! An operation either succeeds, and then the pool is in the state that its
//! postcondition names, or it fails, and then the pool is
//! exactly as it was. The assets themselves are moved by the caller: the
//! `*_transfers` functions say which transfers settle an operation that
//! has succeeded, and a caller that wants no one to enter the pool while it
//! carries them out holds the lock with `acquire_lock` in the meantime.

use crate::amm;
use crate::amm::spec_calculate_liquidity_tokens;
use crate::amm::spec_get_amount_in;
use crate::amm::spec_get_amount_out;
use crate::amm::spec_quote;
use crate::amm::BPS_DENOMINATOR;
use crate::amm::DEFAULT_SWAP_FEE_BPS;
use crate::amm::MINIMUM_LIQUIDITY;
use crate::error::AstroSwapError;
use crate::math::lemma_part_of_amount;
use crate::math::lemma_product_nonnegative;
use crate::math::mul_div_floor;
use crate::token;
use crate::token::allowance_at;
use crate::token::balance_at;
use crate::token::lemma_supply_is_sum_of_balances;
use crate::token::ledger_parts_are_valid;
use crate::token::sum_of_balances;
use crate::token::view_of_ledger_parts;
use crate::token::Entry;
use crate::token::LedgerView;
use crate::token::ShareLedger;
use crate::types::sort_tokens;
use crate::types::Address;
use crate::types::AssetTransfer;
use crate::types::PairInfo;
use vstd::prelude::*;

verus! {

/// What a pool is given when it is created: who may administer it and which
/// two assets it trades. `token_0` precedes `token_1` in the canonical order.
#[derive(Clone, Copy, Debug, PartialEq, Eq, Structural)]
pub struct PairConfig {
    pub factory: Address,
    pub token_0: Address,
    pub token_1: Address,
}

/// The state of a pool, as mathematical values.
pub struct PairView {
    /// The account of the pool itself. It holds the shares that are locked
    /// for good, and it never acts as a caller.
    pub address: Address,
    /// `None` until the pool is initialised, and fixed from then on.
    pub config: Option<PairConfig>,
    pub reserve_0: int,
    pub reserve_1: int,
    /// The product of the reserves as of the last deposit or withdrawal.
    pub k_last: int,
    pub fee_bps: int,
    pub locked: bool,
    pub paused: bool,
    pub shares: LedgerView,
}

/// A liquidity pool for one pair of assets.
///
/// Moving the assets themselves is left to the caller: every operation takes
/// the balances it needs to know as arguments and returns the amounts that
/// have to be moved.
#[derive(Debug)]
pub struct AstroSwapPair {
    address: Address,
    config: Option<PairConfig>,
    reserve_0: i128,
    reserve_1: i128,
    k_last: i128,
    fee_bps: u32,
    locked: bool,
    paused: bool,
    ledger: ShareLedger,
}

impl View for AstroSwapPair {
    type V = PairView;

    closed spec fn view(&self) -> PairView {
        PairView {
            address: self.address,
            config: self.config,
            reserve_0: self.reserve_0 as int,
            reserve_1: self.reserve_1 as int,
            k_last: self.k_last as int,
            fee_bps: self.fee_bps as int,
            locked: self.locked,
            paused: self.paused,
            shares: self.ledger@,
        }
    }
}

/// The rules that the pool itself keeps, over and above those of its ledger:
/// reserves and the recorded product are never negative, the fee is at most
/// the whole, the two assets are in canonical order, a pool that is not yet
/// initialised is empty, the pool's own account has granted no allowance, and
/// once shares exist the pool's own account holds at least the minimum
/// liquidity.
pub open spec fn pool_rules_hold(v: PairView) -> bool {
    &&& 0 <= v.reserve_0 <= i128::MAX
    &&& 0 <= v.reserve_1 <= i128::MAX
    &&& 0 <= v.k_last <= i128::MAX
    &&& 0 <= v.fee_bps <= 10_000
    &&& v.config matches Some(c) ==> c.token_0.spec_precedes(c.token_1)
    &&& v.config is None ==> v.reserve_0 == 0 && v.reserve_1 == 0 && v.k_last == 0 && !v.paused
        && v.shares.total_supply == 0
    &&& forall|spender: Address| #[trigger]
        allowance_at(v.shares.allowances, v.address, spender) == 0
    &&& v.shares.total_supply == 0 || balance_at(v.shares.balances, v.address) >= 1000
}

/// The rules that the share ledger keeps: the supply is the sum of all
/// balances, and no balance or allowance is negative.
pub open spec fn ledger_rules_hold(shares: LedgerView) -> bool {
    &&& shares.total_supply == sum_of_balances(shares.balances)
    &&& shares.balances.dom().finite()
    &&& 0 <= shares.total_supply <= i128::MAX
    &&& forall|who: Address| 0 <= #[trigger] balance_at(shares.balances, who) <= shares.total_supply
    &&& forall|owner: Address, spender: Address|
        0 <= #[trigger] allowance_at(shares.allowances, owner, spender) <= i128::MAX
}

/// What holds of the view of every pool.
pub open spec fn view_is_valid(v: PairView) -> bool {
    pool_rules_hold(v) && ledger_rules_hold(v.shares)
}

/// Everything a pool is made of, as plain values: what a pool is stored as
/// and restored from.
#[derive(Debug, PartialEq, Eq)]
pub struct PairParts {
    pub address: Address,
    pub config: Option<PairConfig>,
    pub reserve_0: i128,
    pub reserve_1: i128,
    pub k_last: i128,
    pub fee_bps: u32,
    pub locked: bool,
    pub paused: bool,
    /// One row for each account that holds or has held shares.
    pub balances: Vec<Entry<Address>>,
    /// One row for each pair of owner and spender, the owner first.
    pub allowances: Vec<Entry<(Address, Address)>>,
}

/// The pool that is made of these parts.
pub open spec fn view_of_pair_parts(parts: PairParts) -> PairView {
    PairView {
        address: parts.address,
        config: parts.config,
        reserve_0: parts.reserve_0 as int,
        reserve_1: parts.reserve_1 as int,
        k_last: parts.k_last as int,
        fee_bps: parts.fee_bps as int,
        locked: parts.locked,
        paused: parts.paused,
        shares: view_of_ledger_parts(parts.balances@, parts.allowances@),
    }
}

/// Whether a pool can be made of these parts: a ledger can be made of the
/// rows, and the pool made of them keeps the pool's rules.
pub open spec fn pair_parts_are_valid(parts: PairParts) -> bool {
    &&& ledger_parts_are_valid(parts.balances@, parts.allowances@)
    &&& pool_rules_hold(view_of_pair_parts(parts))
}

/// How the result and the effect of a pool operation relate to what is
/// expected of it: on success the expected value is returned and the pool
/// holds the expected view; on failure the expected error is returned and the
/// pool is unchanged.
pub open spec fn pair_outcome<T>(
    result: Result<T, AstroSwapError>,
    before: AstroSwapPair,
    after: AstroSwapPair,
    expected: Result<(T, PairView), AstroSwapError>,
) -> bool {
    match expected {
        Ok((value, view)) => result == Ok::<T, AstroSwapError>(value) && after@ == view,
        Err(e) => result == Err::<T, AstroSwapError>(e) && after == before,
    }
}

/// What `initialize` does to a pool.
pub open spec fn spec_initialize(
    before: PairView,
    factory: Address,
    token_0: Address,
    token_1: Address,
) -> Result<((), PairView), AstroSwapError> {
    if before.config is Some {
        Err(AstroSwapError::AlreadyInitialized)
    } else if token_0 == token_1 {
        Err(AstroSwapError::SameToken)
    } else {
        Ok(
            (
                (),
                PairView {
                    config: Some(
                        if token_0.spec_precedes(token_1) {
                            PairConfig { factory, token_0, token_1 }
                        } else {
                            PairConfig { factory, token_0: token_1, token_1: token_0 }
                        },
                    ),
                    fee_bps: 30,
                    locked: false,
                    ..before
                },
            ),
        )
    }
}

/// What `set_paused` does to a pool.
pub open spec fn spec_set_paused(
    before: PairView,
    caller: Address,
    paused: bool,
) -> Result<((), PairView), AstroSwapError> {
    match before.config {
        None => Err(AstroSwapError::NotInitialized),
        Some(c) => if caller != c.factory {
            Err(AstroSwapError::Unauthorized)
        } else {
            Ok(((), PairView { paused, ..before }))
        },
    }
}

/// What `require_open` returns: the pause is tested before the lock.
pub open spec fn spec_require_open(v: PairView) -> Result<(), AstroSwapError> {
    if v.paused {
        Err(AstroSwapError::ContractPaused)
    } else if v.locked {
        Err(AstroSwapError::Reentrancy)
    } else {
        Ok(())
    }
}

/// What `acquire_lock` does to a pool.
pub open spec fn spec_acquire_lock(before: PairView) -> Result<((), PairView), AstroSwapError> {
    if before.locked {
        Err(AstroSwapError::Reentrancy)
    } else {
        Ok(((), PairView { locked: true, ..before }))
    }
}

/// The transfers that settle a deposit: both assets move from `user` into
/// the pool, asset 0 first.
pub open spec fn spec_deposit_transfers(
    v: PairView,
    user: Address,
    amount_0: i128,
    amount_1: i128,
) -> Option<(AssetTransfer, AssetTransfer)> {
    match v.config {
        None => None,
        Some(c) => Some(
            (
                AssetTransfer { asset: c.token_0, from: user, to: v.address, amount: amount_0 },
                AssetTransfer { asset: c.token_1, from: user, to: v.address, amount: amount_1 },
            ),
        ),
    }
}

/// The transfers that settle a withdrawal: both assets move from the pool
/// to `user`, asset 0 first.
pub open spec fn spec_withdraw_transfers(
    v: PairView,
    user: Address,
    amount_0: i128,
    amount_1: i128,
) -> Option<(AssetTransfer, AssetTransfer)> {
    match v.config {
        None => None,
        Some(c) => Some(
            (
                AssetTransfer { asset: c.token_0, from: v.address, to: user, amount: amount_0 },
                AssetTransfer { asset: c.token_1, from: v.address, to: user, amount: amount_1 },
            ),
        ),
    }
}

/// The asset that a pool trades against `token`.
pub open spec fn spec_counterpart(v: PairView, token: Address) -> Option<Address> {
    match v.config {
        None => None,
        Some(c) => if token == c.token_0 {
            Some(c.token_1)
        } else if token == c.token_1 {
            Some(c.token_0)
        } else {
            None
        },
    }
}

/// The transfers that settle a swap: the input moves from `user` into the
/// pool, and then the output moves from the pool to `user`.
pub open spec fn spec_swap_transfers(
    v: PairView,
    user: Address,
    token_in: Address,
    amount_in: i128,
    amount_out: i128,
) -> Option<(AssetTransfer, AssetTransfer)> {
    match spec_counterpart(v, token_in) {
        None => None,
        Some(token_out) => Some(
            (
                AssetTransfer { asset: token_in, from: user, to: v.address, amount: amount_in },
                AssetTransfer { asset: token_out, from: v.address, to: user, amount: amount_out },
            ),
        ),
    }
}

/// The transfer that settles a swap of what was paid in beforehand: the
/// output moves from the pool to the recipient.
pub open spec fn spec_swap_from_balance_transfer(
    v: PairView,
    to: Address,
    token_in: Address,
    amount_out: i128,
) -> Option<AssetTransfer> {
    match spec_counterpart(v, token_in) {
        None => None,
        Some(token_out) => Some(
            AssetTransfer { asset: token_out, from: v.address, to, amount: amount_out },
        ),
    }
}

/// The transfers that carry out a skim: for each asset of which there is an
/// excess, the excess moves from the pool to the recipient, asset 0 first.
pub open spec fn spec_skim_transfers(
    v: PairView,
    to: Address,
    excess_0: i128,
    excess_1: i128,
) -> Seq<AssetTransfer> {
    match v.config {
        None => Seq::empty(),
        Some(c) => {
            let first = if excess_0 > 0 {
                seq![AssetTransfer { asset: c.token_0, from: v.address, to, amount: excess_0 }]
            } else {
                Seq::empty()
            };
            if excess_1 > 0 {
                first.push(
                    AssetTransfer { asset: c.token_1, from: v.address, to, amount: excess_1 },
                )
            } else {
                first
            }
        },
    }
}

/// A deposit that has been decided and not yet carried out.
struct DepositPlan {
    amount_0: i128,
    amount_1: i128,
    shares: i128,
    locked: i128,
    reserve_0: i128,
    reserve_1: i128,
    k: i128,
}

/// The amounts of both assets that a deposit takes: the desired amounts as
/// they are where the pool has no shares yet, and otherwise the largest
/// amounts within the desired ones that keep the ratio of the reserves.
pub open spec fn spec_deposit_amounts(
    before: PairView,
    amount_0_desired: int,
    amount_1_desired: int,
    amount_0_min: int,
    amount_1_min: int,
) -> Result<(i128, i128), AstroSwapError> {
    if before.shares.total_supply == 0 {
        Ok((amount_0_desired as i128, amount_1_desired as i128))
    } else {
        match spec_quote(amount_0_desired, before.reserve_0, before.reserve_1) {
            Err(e) => Err(e),
            Ok(amount_1_optimal) => if amount_1_optimal <= amount_1_desired {
                if amount_1_optimal < amount_1_min {
                    Err(AstroSwapError::MinimumNotMet)
                } else {
                    Ok((amount_0_desired as i128, amount_1_optimal))
                }
            } else {
                match spec_quote(amount_1_desired, before.reserve_1, before.reserve_0) {
                    Err(e) => Err(e),
                    Ok(amount_0_optimal) => if amount_0_optimal > amount_0_desired
                        || amount_0_optimal < amount_0_min {
                        Err(AstroSwapError::MinimumNotMet)
                    } else {
                        Ok((amount_0_optimal, amount_1_desired as i128))
                    },
                }
            },
        }
    }
}

/// The shares that a deposit locks in the pool's own account: the minimum
/// liquidity where the pool has no shares yet, and nothing afterwards.
pub open spec fn locked_by_deposit(before: PairView) -> int {
    if before.shares.total_supply == 0 {
        1000
    } else {
        0
    }
}

/// The pool after a deposit of `amount_0` and `amount_1` that earns `shares`.
pub open spec fn after_deposit(
    before: PairView,
    user: Address,
    amount_0: int,
    amount_1: int,
    shares: int,
) -> PairView {
    let locked = locked_by_deposit(before);
    let with_lock = if locked == 0 {
        before.shares.balances
    } else {
        before.shares.balances.insert(
            before.address,
            balance_at(before.shares.balances, before.address) + locked,
        )
    };
    PairView {
        reserve_0: before.reserve_0 + amount_0,
        reserve_1: before.reserve_1 + amount_1,
        k_last: (before.reserve_0 + amount_0) * (before.reserve_1 + amount_1),
        shares: LedgerView {
            total_supply: before.shares.total_supply + locked + shares,
            balances: with_lock.insert(user, balance_at(with_lock, user) + shares),
            allowances: before.shares.allowances,
        },
        ..before
    }
}

/// What `deposit` does to a pool.
pub open spec fn spec_deposit(
    before: PairView,
    user: Address,
    amount_0_desired: int,
    amount_1_desired: int,
    amount_0_min: int,
    amount_1_min: int,
) -> Result<((i128, i128, i128), PairView), AstroSwapError> {
    if before.paused {
        Err(AstroSwapError::ContractPaused)
    } else if before.locked {
        Err(AstroSwapError::Reentrancy)
    } else if before.config is None {
        Err(AstroSwapError::NotInitialized)
    } else if user == before.address {
        Err(AstroSwapError::Unauthorized)
    } else if amount_0_desired <= 0 || amount_1_desired <= 0 {
        Err(AstroSwapError::InvalidAmount)
    } else {
        match spec_deposit_amounts(
            before,
            amount_0_desired,
            amount_1_desired,
            amount_0_min,
            amount_1_min,
        ) {
            Err(e) => Err(e),
            Ok((amount_0, amount_1)) => match spec_calculate_liquidity_tokens(
                amount_0 as int,
                amount_1 as int,
                before.reserve_0,
                before.reserve_1,
                before.shares.total_supply,
            ) {
                Err(e) => Err(e),
                Ok(shares) => if shares <= 0 {
                    Err(AstroSwapError::InsufficientLiquidity)
                } else if before.shares.total_supply + locked_by_deposit(before) + shares
                    > i128::MAX {
                    Err(AstroSwapError::Overflow)
                } else if before.reserve_0 + amount_0 > i128::MAX || before.reserve_1 + amount_1
                    > i128::MAX {
                    Err(AstroSwapError::Overflow)
                } else if (before.reserve_0 + amount_0) * (before.reserve_1 + amount_1)
                    > i128::MAX {
                    Err(AstroSwapError::Overflow)
                } else {
                    Ok(
                        (
                            (amount_0, amount_1, shares),
                            after_deposit(
                                before,
                                user,
                                amount_0 as int,
                                amount_1 as int,
                                shares as int,
                            ),
                        ),
                    )
                },
            },
        }
    }
}

/// The pool after `shares` have been redeemed for `amount_0` and `amount_1`.
pub open spec fn after_withdraw(
    before: PairView,
    user: Address,
    shares: int,
    amount_0: int,
    amount_1: int,
) -> PairView {
    PairView {
        reserve_0: before.reserve_0 - amount_0,
        reserve_1: before.reserve_1 - amount_1,
        k_last: (before.reserve_0 - amount_0) * (before.reserve_1 - amount_1),
        shares: LedgerView {
            total_supply: before.shares.total_supply - shares,
            balances: before.shares.balances.insert(
                user,
                balance_at(before.shares.balances, user) - shares,
            ),
            allowances: before.shares.allowances,
        },
        ..before
    }
}

/// What `withdraw` does to a pool. The amounts paid out are the reserves'
/// pro-rata parts, `floor(shares * reserve / total_supply)`.
pub open spec fn spec_withdraw(
    before: PairView,
    user: Address,
    shares: int,
    amount_0_min: int,
    amount_1_min: int,
) -> Result<((i128, i128), PairView), AstroSwapError> {
    if before.paused {
        Err(AstroSwapError::ContractPaused)
    } else if before.locked {
        Err(AstroSwapError::Reentrancy)
    } else if before.config is None {
        Err(AstroSwapError::NotInitialized)
    } else if user == before.address {
        Err(AstroSwapError::Unauthorized)
    } else if shares <= 0 {
        Err(AstroSwapError::InvalidAmount)
    } else if balance_at(before.shares.balances, user) < shares {
        Err(AstroSwapError::InsufficientBalance)
    } else {
        let amount_0 = mul_div_floor(shares, before.reserve_0, before.shares.total_supply);
        let amount_1 = mul_div_floor(shares, before.reserve_1, before.shares.total_supply);
        if amount_0 < amount_0_min || amount_1 < amount_1_min {
            Err(AstroSwapError::MinimumNotMet)
        } else if (before.reserve_0 - amount_0) * (before.reserve_1 - amount_1) > i128::MAX {
            Err(AstroSwapError::Overflow)
        } else {
            Ok(
                (
                    (amount_0 as i128, amount_1 as i128),
                    after_withdraw(before, user, shares, amount_0, amount_1),
                ),
            )
        }
    }
}

/// What `swap` does to a pool.
///
/// The output is what `get_amount_out` quotes for the reserves on the two
/// sides of the swap; the input reserve grows by `amount_in` and the output
/// reserve shrinks by the output.
pub open spec fn spec_swap(
    before: PairView,
    user: Address,
    token_in: Address,
    amount_in: int,
    min_out: int,
) -> Result<(i128, PairView), AstroSwapError> {
    if before.paused {
        Err(AstroSwapError::ContractPaused)
    } else if before.locked {
        Err(AstroSwapError::Reentrancy)
    } else {
        match before.config {
            None => Err(AstroSwapError::NotInitialized),
            Some(c) => if user == before.address {
                Err(AstroSwapError::Unauthorized)
            } else if amount_in <= 0 {
                Err(AstroSwapError::InvalidAmount)
            } else if token_in != c.token_0 && token_in != c.token_1 {
                Err(AstroSwapError::InvalidToken)
            } else {
                let zero_in = token_in == c.token_0;
                let reserve_in = if zero_in {
                    before.reserve_0
                } else {
                    before.reserve_1
                };
                let reserve_out = if zero_in {
                    before.reserve_1
                } else {
                    before.reserve_0
                };
                match spec_get_amount_out(amount_in, reserve_in, reserve_out, before.fee_bps) {
                    Err(e) => Err(e),
                    Ok(amount_out) => if amount_out < min_out {
                        Err(AstroSwapError::SlippageExceeded)
                    } else if reserve_in + amount_in > i128::MAX {
                        Err(AstroSwapError::Overflow)
                    } else {
                        Ok(
                            (
                                amount_out,
                                PairView {
                                    reserve_0: if zero_in {
                                        reserve_in + amount_in
                                    } else {
                                        reserve_out - amount_out
                                    },
                                    reserve_1: if zero_in {
                                        reserve_out - amount_out
                                    } else {
                                        reserve_in + amount_in
                                    },
                                    ..before
                                },
                            ),
                        )
                    },
                }
            },
        }
    }
}

/// What `swap_from_balance` does to a pool.
///
/// The input is what the pool's balance of the input asset exceeds its
/// reserve by; afterwards the reserves are the balances as they will be once
/// the output has left the pool.
pub open spec fn spec_swap_from_balance(
    before: PairView,
    token_in: Address,
    min_out: int,
    balance_0: int,
    balance_1: int,
) -> Result<((i128, i128), PairView), AstroSwapError> {
    if before.paused {
        Err(AstroSwapError::ContractPaused)
    } else if before.locked {
        Err(AstroSwapError::Reentrancy)
    } else {
        match before.config {
            None => Err(AstroSwapError::NotInitialized),
            Some(c) => if token_in != c.token_0 && token_in != c.token_1 {
                Err(AstroSwapError::InvalidToken)
            } else {
                let zero_in = token_in == c.token_0;
                let reserve_in = if zero_in {
                    before.reserve_0
                } else {
                    before.reserve_1
                };
                let reserve_out = if zero_in {
                    before.reserve_1
                } else {
                    before.reserve_0
                };
                let balance_in = if zero_in {
                    balance_0
                } else {
                    balance_1
                };
                let balance_out = if zero_in {
                    balance_1
                } else {
                    balance_0
                };
                let amount_in = balance_in - reserve_in;
                if amount_in <= 0 {
                    Err(AstroSwapError::InvalidAmount)
                } else {
                    match spec_get_amount_out(amount_in, reserve_in, reserve_out, before.fee_bps) {
                        Err(e) => Err(e),
                        Ok(amount_out) => if amount_out < min_out {
                            Err(AstroSwapError::SlippageExceeded)
                        } else if balance_out - amount_out < i128::MIN {
                            Err(AstroSwapError::Underflow)
                        } else if balance_out - amount_out < 0 {
                            Err(AstroSwapError::InvalidArgument)
                        } else if balance_in * (balance_out - amount_out) < before.reserve_0
                            * before.reserve_1 {
                            Err(AstroSwapError::InvalidAmount)
                        } else {
                            Ok(
                                (
                                    (amount_in as i128, amount_out),
                                    PairView {
                                        reserve_0: if zero_in {
                                            balance_in
                                        } else {
                                            balance_out - amount_out
                                        },
                                        reserve_1: if zero_in {
                                            balance_out - amount_out
                                        } else {
                                            balance_in
                                        },
                                        ..before
                                    },
                                ),
                            )
                        },
                    }
                }
            },
        }
    }
}

/// What `sync` does to a pool.
pub open spec fn spec_sync(
    before: PairView,
    caller: Address,
    balance_0: int,
    balance_1: int,
) -> Result<((), PairView), AstroSwapError> {
    match before.config {
        None => Err(AstroSwapError::NotInitialized),
        Some(c) => if caller != c.factory {
            Err(AstroSwapError::Unauthorized)
        } else if balance_0 < 0 || balance_1 < 0 {
            Err(AstroSwapError::InvalidAmount)
        } else {
            Ok(((), PairView { reserve_0: balance_0, reserve_1: balance_1, ..before }))
        },
    }
}

/// What one asset's balance exceeds its reserve by, and zero where it does not.
pub open spec fn excess_over(balance: int, reserve: int) -> int {
    if balance > reserve {
        balance - reserve
    } else {
        0
    }
}

/// What `skim` returns; it leaves the pool as it is.
pub open spec fn spec_skim(
    before: PairView,
    caller: Address,
    balance_0: int,
    balance_1: int,
) -> Result<((i128, i128), PairView), AstroSwapError> {
    if before.locked {
        Err(AstroSwapError::Reentrancy)
    } else {
        match before.config {
            None => Err(AstroSwapError::NotInitialized),
            Some(c) => if caller != c.factory {
                Err(AstroSwapError::Unauthorized)
            } else {
                Ok(
                    (
                        (
                            excess_over(balance_0, before.reserve_0) as i128,
                            excess_over(balance_1, before.reserve_1) as i128,
                        ),
                        before,
                    ),
                )
            },
        }
    }
}

/// What the pool's `get_amount_out` returns.
pub open spec fn spec_pair_get_amount_out(
    v: PairView,
    amount_in: int,
    token_in: Address,
) -> Result<i128, AstroSwapError> {
    match v.config {
        None => Err(AstroSwapError::NotInitialized),
        Some(c) => if token_in == c.token_0 {
            spec_get_amount_out(amount_in, v.reserve_0, v.reserve_1, v.fee_bps)
        } else if token_in == c.token_1 {
            spec_get_amount_out(amount_in, v.reserve_1, v.reserve_0, v.fee_bps)
        } else {
            Err(AstroSwapError::InvalidToken)
        },
    }
}

/// What the pool's `get_amount_in` returns.
pub open spec fn spec_pair_get_amount_in(
    v: PairView,
    amount_out: int,
    token_out: Address,
) -> Result<i128, AstroSwapError> {
    match v.config {
        None => Err(AstroSwapError::NotInitialized),
        Some(c) => if token_out == c.token_0 {
            spec_get_amount_in(amount_out, v.reserve_1, v.reserve_0, v.fee_bps)
        } else if token_out == c.token_1 {
            spec_get_amount_in(amount_out, v.reserve_0, v.reserve_1, v.fee_bps)
        } else {
            Err(AstroSwapError::InvalidToken)
        },
    }
}

/// What a ledger operation does to a pool when `actor` asks for it: the
/// pool's own account is refused, and everyone else gets what the ledger
/// gives.
pub open spec fn spec_on_ledger(
    before: PairView,
    actor: Address,
    expected: Result<LedgerView, AstroSwapError>,
) -> Result<((), PairView), AstroSwapError> {
    if actor == before.address {
        Err(AstroSwapError::Unauthorized)
    } else {
        match expected {
            Err(e) => Err(e),
            Ok(shares) => Ok(((), PairView { shares, ..before })),
        }
    }
}

impl AstroSwapPair {
    /// The invariant of the type: the view is valid.
    #[verifier::type_invariant]
    pub closed spec fn well_formed(&self) -> bool {
        &&& self.ledger.well_formed()
        &&& pool_rules_hold(self@)
    }

    /// A pool that has not been initialised: no assets, no reserves, no
    /// shares, the default fee, neither locked nor paused.
    pub fn new(address: Address) -> (pool: AstroSwapPair)
        ensures
            pool.well_formed(),
            pool@ == (PairView {
                address,
                config: None,
                reserve_0: 0,
                reserve_1: 0,
                k_last: 0,
                fee_bps: 30,
                locked: false,
                paused: false,
                shares: LedgerView {
                    total_supply: 0,
                    balances: Map::empty(),
                    allowances: Map::empty(),
                },
            }),
    {
        let ledger = ShareLedger::new();
        AstroSwapPair {
            address,
            config: None,
            reserve_0: 0,
            reserve_1: 0,
            k_last: 0,
            fee_bps: DEFAULT_SWAP_FEE_BPS,
            locked: false,
            paused: false,
            ledger,
        }
    }

    /// The pool made of `parts`, or `InvalidArgument` where no pool can be
    /// made of them.
    pub fn from_parts(parts: PairParts) -> (r: Result<AstroSwapPair, AstroSwapError>)
        ensures
            match r {
                Ok(pool) => pair_parts_are_valid(parts) && pool.well_formed() && pool@
                    == view_of_pair_parts(parts),
                Err(e) => e == AstroSwapError::InvalidArgument && !pair_parts_are_valid(parts),
            },
    {
        let PairParts {
            address,
            config,
            reserve_0,
            reserve_1,
            k_last,
            fee_bps,
            locked,
            paused,
            balances,
            allowances,
        } = parts;
        let ledger = match ShareLedger::from_parts(balances, allowances) {
            Ok(ledger) => ledger,
            Err(e) => {
                return Err(e);
            },
        };
        if reserve_0 < 0 || reserve_1 < 0 || k_last < 0 || fee_bps > BPS_DENOMINATOR {
            return Err(AstroSwapError::InvalidArgument);
        }
        let supply = token::total_supply(&ledger);
        match config {
            Some(c) => {
                if !c.token_0.precedes(&c.token_1) {
                    return Err(AstroSwapError::InvalidArgument);
                }
            },
            None => {
                if reserve_0 != 0 || reserve_1 != 0 || k_last != 0 || paused || supply != 0 {
                    return Err(AstroSwapError::InvalidArgument);
                }
            },
        }
        if !ledger.grants_nothing(&address) {
            return Err(AstroSwapError::InvalidArgument);
        }
        if supply != 0 && token::balance_of(&ledger, &address) < MINIMUM_LIQUIDITY {
            return Err(AstroSwapError::InvalidArgument);
        }
        Ok(
            AstroSwapPair {
                address,
                config,
                reserve_0,
                reserve_1,
                k_last,
                fee_bps,
                locked,
                paused,
                ledger,
            },
        )
    }

    /// The parts that the pool is made of. A pool made of these parts again
    /// is the same pool.
    pub fn into_parts(self) -> (parts: PairParts)
        ensures
            pair_parts_are_valid(parts),
            view_of_pair_parts(parts) == self@,
    {
        proof {
            use_type_invariant(&self);
        }
        let AstroSwapPair {
            address,
            config,
            reserve_0,
            reserve_1,
            k_last,
            fee_bps,
            locked,
            paused,
            ledger,
        } = self;
        let (balances, allowances, _supply) = ledger.into_parts();
        PairParts {
            address,
            config,
            reserve_0,
            reserve_1,
            k_last,
            fee_bps,
            locked,
            paused,
            balances,
            allowances,
        }
    }

    /// Makes the pool ready for use, once: records the factory and the two
    /// assets in canonical order, sets the default fee and opens the lock.
    ///
    /// A pool that is already initialised gives `AlreadyInitialized`; two
    /// equal assets give `SameToken`.
    pub fn initialize(
        &mut self,
        factory: &Address,
        token_0: &Address,
        token_1: &Address,
    ) -> (r: Result<(), AstroSwapError>)
        ensures
            final(self).well_formed(),
            pair_outcome(
                r,
                *old(self),
                *final(self),
                spec_initialize(old(self)@, *factory, *token_0, *token_1),
            ),
            r is Ok ==> final(self)@.reserve_0 == 0 && final(self)@.reserve_1 == 0,
            r is Ok ==> final(self)@.shares.total_supply == 0,
    {
        proof {
            use_type_invariant(&*self);
        }
        if self.config.is_some() {
            return Err(AstroSwapError::AlreadyInitialized);
        }
        if *token_0 == *token_1 {
            return Err(AstroSwapError::SameToken);
        }
        let (first, second) = sort_tokens(token_0, token_1);
        self.config = Some(PairConfig { factory: *factory, token_0: first, token_1: second });
        self.fee_bps = DEFAULT_SWAP_FEE_BPS;
        self.locked = false;
        Ok(())
    }

    /// Closes the lock. `Reentrancy` when it is closed already.
    pub fn acquire_lock(&mut self) -> (r: Result<(), AstroSwapError>)
        ensures
            final(self).well_formed(),
            pair_outcome(r, *old(self), *final(self), spec_acquire_lock(old(self)@)),
    {
        proof {
            use_type_invariant(&*self);
        }
        if self.locked {
            return Err(AstroSwapError::Reentrancy);
        }
        self.locked = true;
        Ok(())
    }

    /// Opens the lock.
    pub fn release_lock(&mut self)
        ensures
            final(self).well_formed(),
            final(self)@ == (PairView { locked: false, ..old(self)@ }),
    {
        proof {
            use_type_invariant(&*self);
        }
        self.locked = false;
    }

    /// Whether the lock is closed.
    pub fn is_locked(&self) -> (b: bool)
        ensures
            b == self@.locked,
    {
        self.locked
    }

    /// Whether the pool has been initialised.
    pub fn is_initialized(&self) -> (b: bool)
        ensures
            b == (self@.config is Some),
    {
        self.config.is_some()
    }

    /// The two gates that guard an operation, in the order in which every
    /// guarded operation tests them: `ContractPaused` while the pool is
    /// paused, whatever the lock; otherwise `Reentrancy` while the lock is
    /// closed.
    pub fn require_open(&self) -> (r: Result<(), AstroSwapError>)
        ensures
            r == spec_require_open(self@),
    {
        if self.paused {
            return Err(AstroSwapError::ContractPaused);
        }
        if self.locked {
            return Err(AstroSwapError::Reentrancy);
        }
        Ok(())
    }

    /// `NotInitialized` for a pool without a factory, and `Unauthorized` for
    /// every caller but the factory.
    fn require_factory(&self, caller: &Address) -> (r: Result<(), AstroSwapError>)
        ensures
            r == match self@.config {
                None => Err::<(), AstroSwapError>(AstroSwapError::NotInitialized),
                Some(c) => if *caller != c.factory {
                    Err::<(), AstroSwapError>(AstroSwapError::Unauthorized)
                } else {
                    Ok::<(), AstroSwapError>(())
                },
            },
    {
        match self.config {
            None => Err(AstroSwapError::NotInitialized),
            Some(c) => {
                if *caller != c.factory {
                    Err(AstroSwapError::Unauthorized)
                } else {
                    Ok(())
                }
            },
        }
    }

    /// Pauses or resumes the pool. Only the factory may do so.
    pub fn set_paused(&mut self, caller: &Address, paused: bool) -> (r: Result<(), AstroSwapError>)
        ensures
            final(self).well_formed(),
            pair_outcome(r, *old(self), *final(self), spec_set_paused(old(self)@, *caller, paused)),
    {
        proof {
            use_type_invariant(&*self);
        }
        match self.require_factory(caller) {
            Ok(()) => {},
            Err(e) => {
                return Err(e);
            },
        }
        self.paused = paused;
        Ok(())
    }

    /// Whether the pool is paused.
    pub fn is_paused(&self) -> (b: bool)
        ensures
            b == self@.paused,
    {
        self.paused
    }

    /// Decides a deposit without carrying it out: the amounts taken, the
    /// shares earned and locked, and the reserves and their product
    /// afterwards.
    fn plan_deposit(
        &self,
        user: &Address,
        amount_0_desired: i128,
        amount_1_desired: i128,
        amount_0_min: i128,
        amount_1_min: i128,
    ) -> (r: Result<DepositPlan, AstroSwapError>)
        ensures
            match spec_deposit(
                self@,
                *user,
                amount_0_desired as int,
                amount_1_desired as int,
                amount_0_min as int,
                amount_1_min as int,
            ) {
                Err(e) => r == Err::<DepositPlan, AstroSwapError>(e),
                Ok((amounts, after)) => r matches Ok(plan) && plan.amount_0 == amounts.0
                    && plan.amount_1 == amounts.1 && plan.shares == amounts.2 && plan.shares > 0
                    && plan.locked == locked_by_deposit(self@) && plan.reserve_0
                    == self@.reserve_0 + plan.amount_0 && plan.reserve_1 == self@.reserve_1
                    + plan.amount_1 && plan.k == plan.reserve_0 * plan.reserve_1
                    && self@.shares.total_supply + plan.locked + plan.shares <= i128::MAX
                    && *user != self@.address && self@.config is Some,
            },
    {
        proof {
            use_type_invariant(self);
            lemma_supply_is_sum_of_balances(self.ledger);
        }
        match self.require_open() {
            Ok(()) => {},
            Err(e) => {
                return Err(e);
            },
        }
        if self.config.is_none() {
            return Err(AstroSwapError::NotInitialized);
        }
        if *user == self.address {
            return Err(AstroSwapError::Unauthorized);
        }
        if amount_0_desired <= 0 || amount_1_desired <= 0 {
            return Err(AstroSwapError::InvalidAmount);
        }
        let reserve_0 = self.reserve_0;
        let reserve_1 = self.reserve_1;
        let total_supply = token::total_supply(&self.ledger);
        let (amount_0, amount_1) = if total_supply == 0 {
            (amount_0_desired, amount_1_desired)
        } else {
            let amount_1_optimal = match amm::quote(amount_0_desired, reserve_0, reserve_1) {
                Ok(v) => v,
                Err(e) => {
                    return Err(e);
                },
            };
            if amount_1_optimal <= amount_1_desired {
                if amount_1_optimal < amount_1_min {
                    return Err(AstroSwapError::MinimumNotMet);
                }
                (amount_0_desired, amount_1_optimal)
            } else {
                let amount_0_optimal = match amm::quote(amount_1_desired, reserve_1, reserve_0) {
                    Ok(v) => v,
                    Err(e) => {
                        return Err(e);
                    },
                };
                if amount_0_optimal > amount_0_desired || amount_0_optimal < amount_0_min {
                    return Err(AstroSwapError::MinimumNotMet);
                }
                (amount_0_optimal, amount_1_desired)
            }
        };
        assert(spec_deposit_amounts(
            self@,
            amount_0_desired as int,
            amount_1_desired as int,
            amount_0_min as int,
            amount_1_min as int,
        ) == Ok::<(i128, i128), AstroSwapError>((amount_0, amount_1)));
        let shares = match amm::calculate_liquidity_tokens(
            amount_0,
            amount_1,
            reserve_0,
            reserve_1,
            total_supply,
        ) {
            Ok(v) => v,
            Err(e) => {
                return Err(e);
            },
        };
        if shares <= 0 {
            return Err(AstroSwapError::InsufficientLiquidity);
        }
        let locked: i128 = if total_supply == 0 {
            MINIMUM_LIQUIDITY
        } else {
            0
        };
        let minted = match amm::safe_add(locked, shares) {
            Ok(v) => v,
            Err(e) => {
                return Err(e);
            },
        };
        match amm::safe_add(total_supply, minted) {
            Ok(_) => {},
            Err(e) => {
                return Err(e);
            },
        }
        let (new_reserve_0, new_reserve_1) = match amm::update_reserves_add(
            reserve_0,
            reserve_1,
            amount_0,
            amount_1,
        ) {
            Ok(v) => v,
            Err(e) => {
                return Err(e);
            },
        };
        proof {
            lemma_product_nonnegative(new_reserve_0 as int, new_reserve_1 as int);
        }
        let k = match amm::calculate_k(new_reserve_0, new_reserve_1) {
            Ok(v) => v,
            Err(e) => {
                return Err(e);
            },
        };
        Ok(
            DepositPlan {
                amount_0,
                amount_1,
                shares,
                locked,
                reserve_0: new_reserve_0,
                reserve_1: new_reserve_1,
                k,
            },
        )
    }

    /// Adds liquidity: takes both assets from `user` in the ratio of the
    /// reserves and credits `user` with new shares. Returns the amounts of
    /// asset 0 and asset 1 that the caller has to move from `user` into the
    /// pool, and the number of shares credited.
    ///
    /// Into a pool without shares the desired amounts are taken as they are,
    /// and `MINIMUM_LIQUIDITY` shares are locked in the pool's own account
    /// besides those credited to `user`.
    ///
    /// Fails, in this order: `ContractPaused`, whatever the lock;
    /// `Reentrancy` while the lock is closed; `NotInitialized`;
    /// `Unauthorized` where `user` is the pool's own account;
    /// `InvalidAmount` for a non-positive desired amount;
    /// `MinimumNotMet` where the amount that keeps the ratio is below the
    /// stated minimum; `InsufficientLiquidity` where no share would be
    /// earned; `Overflow` where the supply, a reserve or the product of the
    /// reserves would leave the `i128` range.
    pub fn deposit(
        &mut self,
        user: &Address,
        amount_0_desired: i128,
        amount_1_desired: i128,
        amount_0_min: i128,
        amount_1_min: i128,
    ) -> (r: Result<(i128, i128, i128), AstroSwapError>)
        ensures
            final(self).well_formed(),
            pair_outcome(
                r,
                *old(self),
                *final(self),
                spec_deposit(
                    old(self)@,
                    *user,
                    amount_0_desired as int,
                    amount_1_desired as int,
                    amount_0_min as int,
                    amount_1_min as int,
                ),
            ),
    {
        proof {
            use_type_invariant(&*self);
        }
        let plan = match self.plan_deposit(
            user,
            amount_0_desired,
            amount_1_desired,
            amount_0_min,
            amount_1_min,
        ) {
            Ok(plan) => plan,
            Err(e) => {
                return Err(e);
            },
        };
        let own = self.address;
        let ghost before = self@;
        let mut ledger = ShareLedger::new();
        std::mem::swap(&mut self.ledger, &mut ledger);
        proof {
            lemma_supply_is_sum_of_balances(ledger);
            assert(balance_at(before.shares.balances, own) >= 0);
        }
        // Neither mint can fail: both amounts are positive and the plan has
        // made sure that the supply can take them.
        if plan.locked > 0 {
            match token::mint(&mut ledger, &own, plan.locked) {
                Ok(()) => {},
                Err(e) => {
                    return Err(e);
                },
            }
        }
        let ghost with_lock = ledger@;
        match token::mint(&mut ledger, user, plan.shares) {
            Ok(()) => {},
            Err(e) => {
                return Err(e);
            },
        }
        proof {
            assert(balance_at(with_lock.balances, own) >= 1000);
            assert(balance_at(ledger@.balances, own) == balance_at(with_lock.balances, own));
            assert(ledger@.allowances == before.shares.allowances);
            assert forall|spender: Address| #[trigger]
                allowance_at(ledger@.allowances, own, spender) == 0 by {
                assert(allowance_at(before.shares.allowances, before.address, spender) == 0);
            }
            assert(ledger@ == after_deposit(
                before,
                *user,
                plan.amount_0 as int,
                plan.amount_1 as int,
                plan.shares as int,
            ).shares);
        }
        std::mem::swap(&mut self.ledger, &mut ledger);
        self.reserve_0 = plan.reserve_0;
        self.reserve_1 = plan.reserve_1;
        self.k_last = plan.k;
        Ok((plan.amount_0, plan.amount_1, plan.shares))
    }

    /// Removes liquidity: destroys `shares` of `user`'s shares and pays out
    /// the matching part of both reserves. Returns the amounts of asset 0
    /// and asset 1 that the caller has to move from the pool to `user`.
    ///
    /// Fails, in this order: `ContractPaused`, whatever the lock;
    /// `Reentrancy` while the lock is closed; `NotInitialized`;
    /// `Unauthorized` where `user` is the pool's own account;
    /// `InvalidAmount` for non-positive `shares`;
    /// `InsufficientBalance` where `user` holds fewer than `shares`;
    /// `MinimumNotMet` where an amount is below the stated minimum;
    /// `Overflow` where the product of the remaining reserves leaves the
    /// `i128` range.
    pub fn withdraw(
        &mut self,
        user: &Address,
        shares: i128,
        amount_0_min: i128,
        amount_1_min: i128,
    ) -> (r: Result<(i128, i128), AstroSwapError>)
        ensures
            final(self).well_formed(),
            pair_outcome(
                r,
                *old(self),
                *final(self),
                spec_withdraw(
                    old(self)@,
                    *user,
                    shares as int,
                    amount_0_min as int,
                    amount_1_min as int,
                ),
            ),
    {
        proof {
            use_type_invariant(&*self);
            lemma_supply_is_sum_of_balances(self.ledger);
        }
        match self.require_open() {
            Ok(()) => {},
            Err(e) => {
                return Err(e);
            },
        }
        if self.config.is_none() {
            return Err(AstroSwapError::NotInitialized);
        }
        if *user == self.address {
            return Err(AstroSwapError::Unauthorized);
        }
        if shares <= 0 {
            return Err(AstroSwapError::InvalidAmount);
        }
        let user_balance = token::balance_of(&self.ledger, user);
        if user_balance < shares {
            return Err(AstroSwapError::InsufficientBalance);
        }
        let reserve_0 = self.reserve_0;
        let reserve_1 = self.reserve_1;
        let total_supply = token::total_supply(&self.ledger);
        proof {
            lemma_part_of_amount(shares as int, total_supply as int, reserve_0 as int);
            lemma_part_of_amount(shares as int, total_supply as int, reserve_1 as int);
        }
        let (amount_0, amount_1) = match amm::calculate_withdrawal_amounts(
            shares,
            reserve_0,
            reserve_1,
            total_supply,
        ) {
            Ok(v) => v,
            Err(e) => {
                return Err(e);
            },
        };
        if amount_0 < amount_0_min || amount_1 < amount_1_min {
            return Err(AstroSwapError::MinimumNotMet);
        }
        let (new_reserve_0, new_reserve_1) = match amm::update_reserves_sub(
            reserve_0,
            reserve_1,
            amount_0,
            amount_1,
        ) {
            Ok(v) => v,
            Err(e) => {
                return Err(e);
            },
        };
        proof {
            lemma_product_nonnegative(new_reserve_0 as int, new_reserve_1 as int);
        }
        let k = match amm::calculate_k(new_reserve_0, new_reserve_1) {
            Ok(v) => v,
            Err(e) => {
                return Err(e);
            },
        };
        let mut ledger = ShareLedger::new();
        std::mem::swap(&mut self.ledger, &mut ledger);
        // Cannot fail: the balance has been found to cover the shares.
        match token::burn(&mut ledger, user, shares) {
            Ok(()) => {},
            Err(e) => {
                return Err(e);
            },
        }
        std::mem::swap(&mut self.ledger, &mut ledger);
        self.reserve_0 = new_reserve_0;
        self.reserve_1 = new_reserve_1;
        self.k_last = k;
        Ok((amount_0, amount_1))
    }

    /// Trades `amount_in` of `token_in` for the pool's other asset. Returns
    /// the amount of the other asset that the caller has to move from the
    /// pool to `user`, after moving `amount_in` from `user` into the pool.
    ///
    /// On success the product of the reserves is at least what it was.
    ///
    /// Fails, in this order: `ContractPaused`, whatever the lock;
    /// `Reentrancy` while the lock is closed; `NotInitialized`;
    /// `Unauthorized` where `user` is the pool's own account;
    /// `InvalidAmount` for a non-positive `amount_in`; `InvalidToken` where
    /// `token_in` is neither asset; as `get_amount_out` does;
    /// `SlippageExceeded` where the output is below `min_out`; `Overflow`
    /// where the input reserve leaves the `i128` range. The product of the
    /// reserves may be of any size. That it would fall is tested as well and
    /// reported as `InvalidAmount`, but no input makes it happen.
    pub fn swap(
        &mut self,
        user: &Address,
        token_in: &Address,
        amount_in: i128,
        min_out: i128,
    ) -> (r: Result<i128, AstroSwapError>)
        ensures
            final(self).well_formed(),
            pair_outcome(
                r,
                *old(self),
                *final(self),
                spec_swap(old(self)@, *user, *token_in, amount_in as int, min_out as int),
            ),
            r is Ok ==> final(self)@.reserve_0 * final(self)@.reserve_1 >= old(self)@.reserve_0
                * old(self)@.reserve_1,
    {
        proof {
            use_type_invariant(&*self);
        }
        match self.require_open() {
            Ok(()) => {},
            Err(e) => {
                return Err(e);
            },
        }
        let config = match self.config {
            Some(c) => c,
            None => {
                return Err(AstroSwapError::NotInitialized);
            },
        };
        if *user == self.address {
            return Err(AstroSwapError::Unauthorized);
        }
        if amount_in <= 0 {
            return Err(AstroSwapError::InvalidAmount);
        }
        let (reserve_in, reserve_out, is_token_0_in) = if *token_in == config.token_0 {
            (self.reserve_0, self.reserve_1, true)
        } else if *token_in == config.token_1 {
            (self.reserve_1, self.reserve_0, false)
        } else {
            return Err(AstroSwapError::InvalidToken);
        };
        let amount_out = match amm::get_amount_out(amount_in, reserve_in, reserve_out, self.fee_bps) {
            Ok(v) => v,
            Err(e) => {
                return Err(e);
            },
        };
        if amount_out < min_out {
            return Err(AstroSwapError::SlippageExceeded);
        }
        let (new_reserve_0, new_reserve_1) = match amm::update_reserves_swap(
            reserve_in,
            reserve_out,
            amount_in,
            amount_out,
            is_token_0_in,
        ) {
            Ok(v) => v,
            Err(e) => {
                return Err(e);
            },
        };
        proof {
            amm::lemma_swap_keeps_product(
                amount_in as int,
                reserve_in as int,
                reserve_out as int,
                10_000 - self.fee_bps,
            );
            let grown = reserve_in + amount_in;
            let shrunk = reserve_out - amount_out;
            lemma_product_nonnegative(reserve_in as int, reserve_out as int);
            assert(grown * shrunk == shrunk * grown) by (nonlinear_arith);
            assert(reserve_in * reserve_out == reserve_out * reserve_in) by (nonlinear_arith);
        }
        let (orig_reserve_0, orig_reserve_1) = if is_token_0_in {
            (reserve_in, reserve_out)
        } else {
            (reserve_out, reserve_in)
        };
        // The product is known not to fall; the test is made all the same.
        match amm::verify_k_invariant(new_reserve_0, new_reserve_1, orig_reserve_0, orig_reserve_1) {
            Ok(true) => {},
            Ok(false) => {
                return Err(AstroSwapError::InvalidAmount);
            },
            Err(e) => {
                return Err(e);
            },
        }
        self.reserve_0 = new_reserve_0;
        self.reserve_1 = new_reserve_1;
        Ok(amount_out)
    }

    /// Trades what has already been paid into the pool: the input is what
    /// the pool's balance of `token_in` exceeds its reserve by. `balance_0`
    /// and `balance_1` are the pool's balances of its two assets as the
    /// caller has read them. Returns the input found and the amount of the
    /// other asset that the caller has to move out of the pool.
    ///
    /// On success the product of the reserves is at least what it was.
    ///
    /// Fails, in this order: `ContractPaused`, whatever the lock;
    /// `Reentrancy` while the lock is closed; `NotInitialized`;
    /// `InvalidToken` where `token_in` is neither asset; `InvalidAmount`
    /// where the balance does not exceed the reserve; as `get_amount_out`
    /// does; `SlippageExceeded` where the output is below `min_out`;
    /// `Underflow` where the output balance less the output leaves the
    /// `i128` range, and `InvalidArgument` where it is negative;
    /// `InvalidAmount` where the product of the reserves would fall. The
    /// products are compared exactly, whatever their size.
    pub fn swap_from_balance(
        &mut self,
        token_in: &Address,
        min_out: i128,
        balance_0: i128,
        balance_1: i128,
    ) -> (r: Result<(i128, i128), AstroSwapError>)
        ensures
            final(self).well_formed(),
            pair_outcome(
                r,
                *old(self),
                *final(self),
                spec_swap_from_balance(
                    old(self)@,
                    *token_in,
                    min_out as int,
                    balance_0 as int,
                    balance_1 as int,
                ),
            ),
            r is Ok ==> final(self)@.reserve_0 * final(self)@.reserve_1 >= old(self)@.reserve_0
                * old(self)@.reserve_1,
    {
        proof {
            use_type_invariant(&*self);
        }
        match self.require_open() {
            Ok(()) => {},
            Err(e) => {
                return Err(e);
            },
        }
        let config = match self.config {
            Some(c) => c,
            None => {
                return Err(AstroSwapError::NotInitialized);
            },
        };
        let reserve_0 = self.reserve_0;
        let reserve_1 = self.reserve_1;
        let (balance_in, balance_out, reserve_in, reserve_out, is_token_0_in) = if *token_in
            == config.token_0 {
            (balance_0, balance_1, reserve_0, reserve_1, true)
        } else if *token_in == config.token_1 {
            (balance_1, balance_0, reserve_1, reserve_0, false)
        } else {
            return Err(AstroSwapError::InvalidToken);
        };
        let amount_in = match amm::safe_sub(balance_in, reserve_in) {
            Ok(v) => v,
            Err(_) => {
                return Err(AstroSwapError::InvalidAmount);
            },
        };
        if amount_in <= 0 {
            return Err(AstroSwapError::InvalidAmount);
        }
        let amount_out = match amm::get_amount_out(amount_in, reserve_in, reserve_out, self.fee_bps) {
            Ok(v) => v,
            Err(e) => {
                return Err(e);
            },
        };
        if amount_out < min_out {
            return Err(AstroSwapError::SlippageExceeded);
        }
        let remaining_out = match amm::safe_sub(balance_out, amount_out) {
            Ok(v) => v,
            Err(e) => {
                return Err(e);
            },
        };
        let (new_balance_0, new_balance_1) = if is_token_0_in {
            (balance_in, remaining_out)
        } else {
            (remaining_out, balance_in)
        };
        proof {
            assert(balance_in * remaining_out == remaining_out * balance_in) by (nonlinear_arith);
            assert(reserve_in * reserve_out == reserve_out * reserve_in) by (nonlinear_arith);
        }
        match amm::verify_k_invariant(new_balance_0, new_balance_1, reserve_0, reserve_1) {
            Ok(true) => {},
            Ok(false) => {
                return Err(AstroSwapError::InvalidAmount);
            },
            Err(e) => {
                return Err(e);
            },
        }
        self.reserve_0 = new_balance_0;
        self.reserve_1 = new_balance_1;
        Ok((amount_in, amount_out))
    }

    /// Makes the reserves equal to the pool's balances as the caller has
    /// read them. Only the factory may do so.
    ///
    /// Fails with `NotInitialized`, then `Unauthorized` for every caller but
    /// the factory, then `InvalidAmount` for a negative balance.
    pub fn sync(
        &mut self,
        caller: &Address,
        balance_0: i128,
        balance_1: i128,
    ) -> (r: Result<(), AstroSwapError>)
        ensures
            final(self).well_formed(),
            pair_outcome(
                r,
                *old(self),
                *final(self),
                spec_sync(old(self)@, *caller, balance_0 as int, balance_1 as int),
            ),
    {
        proof {
            use_type_invariant(&*self);
        }
        match self.require_factory(caller) {
            Ok(()) => {},
            Err(e) => {
                return Err(e);
            },
        }
        if balance_0 < 0 || balance_1 < 0 {
            return Err(AstroSwapError::InvalidAmount);
        }
        self.reserve_0 = balance_0;
        self.reserve_1 = balance_1;
        Ok(())
    }

    /// What the pool holds beyond its reserves: for each asset, the amount
    /// by which the balance that the caller has read exceeds the reserve, and
    /// zero where it does not. The caller moves these amounts out of the
    /// pool. Only the factory may ask. The pool is left as it is.
    ///
    /// Fails with `Reentrancy` while the lock is closed, then
    /// `NotInitialized`, then `Unauthorized` for every caller but the factory.
    pub fn skim(
        &mut self,
        caller: &Address,
        balance_0: i128,
        balance_1: i128,
    ) -> (r: Result<(i128, i128), AstroSwapError>)
        ensures
            final(self).well_formed(),
            pair_outcome(
                r,
                *old(self),
                *final(self),
                spec_skim(old(self)@, *caller, balance_0 as int, balance_1 as int),
            ),
    {
        proof {
            use_type_invariant(&*self);
        }
        if self.locked {
            return Err(AstroSwapError::Reentrancy);
        }
        match self.require_factory(caller) {
            Ok(()) => {},
            Err(e) => {
                return Err(e);
            },
        }
        let excess_0: i128 = if balance_0 > self.reserve_0 {
            balance_0 - self.reserve_0
        } else {
            0
        };
        let excess_1: i128 = if balance_1 > self.reserve_1 {
            balance_1 - self.reserve_1
        } else {
            0
        };
        Ok((excess_0, excess_1))
    }

    /// The transfers that settle a deposit of `amount_0` and `amount_1` by
    /// `user`: both assets move from `user` into the pool, asset 0 first.
    /// `None` before initialisation.
    pub fn deposit_transfers(&self, user: &Address, amount_0: i128, amount_1: i128) -> (moves:
        Option<(AssetTransfer, AssetTransfer)>)
        ensures
            moves == spec_deposit_transfers(self@, *user, amount_0, amount_1),
    {
        match self.config {
            None => None,
            Some(c) => Some(
                (
                    AssetTransfer {
                        asset: c.token_0,
                        from: *user,
                        to: self.address,
                        amount: amount_0,
                    },
                    AssetTransfer {
                        asset: c.token_1,
                        from: *user,
                        to: self.address,
                        amount: amount_1,
                    },
                ),
            ),
        }
    }

    /// The transfers that settle a withdrawal of `amount_0` and `amount_1`
    /// by `user`: both assets move from the pool to `user`, asset 0 first.
    /// `None` before initialisation.
    pub fn withdraw_transfers(&self, user: &Address, amount_0: i128, amount_1: i128) -> (moves:
        Option<(AssetTransfer, AssetTransfer)>)
        ensures
            moves == spec_withdraw_transfers(self@, *user, amount_0, amount_1),
    {
        match self.config {
            None => None,
            Some(c) => Some(
                (
                    AssetTransfer {
                        asset: c.token_0,
                        from: self.address,
                        to: *user,
                        amount: amount_0,
                    },
                    AssetTransfer {
                        asset: c.token_1,
                        from: self.address,
                        to: *user,
                        amount: amount_1,
                    },
                ),
            ),
        }
    }

    /// The transfers that settle a swap by `user` of `amount_in` of
    /// `token_in` for `amount_out` of the other asset: first the input moves
    /// from `user` into the pool, then the output from the pool to `user`.
    /// `None` where `token_in` is not an asset of the pool.
    pub fn swap_transfers(
        &self,
        user: &Address,
        token_in: &Address,
        amount_in: i128,
        amount_out: i128,
    ) -> (moves: Option<(AssetTransfer, AssetTransfer)>)
        ensures
            moves == spec_swap_transfers(self@, *user, *token_in, amount_in, amount_out),
    {
        match self.counterpart(token_in) {
            None => None,
            Some(token_out) => Some(
                (
                    AssetTransfer {
                        asset: *token_in,
                        from: *user,
                        to: self.address,
                        amount: amount_in,
                    },
                    AssetTransfer {
                        asset: token_out,
                        from: self.address,
                        to: *user,
                        amount: amount_out,
                    },
                ),
            ),
        }
    }

    /// The transfer that settles a swap of what was paid in beforehand: the
    /// output moves from the pool to `to`. `None` where `token_in` is not an
    /// asset of the pool.
    pub fn swap_from_balance_transfer(&self, to: &Address, token_in: &Address, amount_out: i128) -> (moves:
        Option<AssetTransfer>)
        ensures
            moves == spec_swap_from_balance_transfer(self@, *to, *token_in, amount_out),
    {
        match self.counterpart(token_in) {
            None => None,
            Some(token_out) => Some(
                AssetTransfer { asset: token_out, from: self.address, to: *to, amount: amount_out },
            ),
        }
    }

    /// The transfers that carry out a skim of `excess_0` and `excess_1` to
    /// `to`: one for each asset of which there is an excess, asset 0 first.
    /// There are none before initialisation.
    pub fn skim_transfers(&self, to: &Address, excess_0: i128, excess_1: i128) -> (moves: Vec<
        AssetTransfer,
    >)
        ensures
            moves@ == spec_skim_transfers(self@, *to, excess_0, excess_1),
    {
        let mut moves: Vec<AssetTransfer> = Vec::new();
        match self.config {
            None => {},
            Some(c) => {
                if excess_0 > 0 {
                    moves.push(
                        AssetTransfer {
                            asset: c.token_0,
                            from: self.address,
                            to: *to,
                            amount: excess_0,
                        },
                    );
                }
                if excess_1 > 0 {
                    moves.push(
                        AssetTransfer {
                            asset: c.token_1,
                            from: self.address,
                            to: *to,
                            amount: excess_1,
                        },
                    );
                }
            },
        }
        proof {
            assert(moves@ =~= spec_skim_transfers(self@, *to, excess_0, excess_1));
        }
        moves
    }

    /// The pool's assets, reserves, share supply and fee in one record.
    pub fn get_info(&self) -> (info: PairInfo)
        requires
            self@.config is Some,
        ensures
            info == (PairInfo {
                token_a: self@.config->0.token_0,
                token_b: self@.config->0.token_1,
                reserve_a: self@.reserve_0 as i128,
                reserve_b: self@.reserve_1 as i128,
                total_shares: self@.shares.total_supply as i128,
                fee_bps: self@.fee_bps as u32,
            }),
    {
        proof {
            use_type_invariant(self);
        }
        let config = self.config.unwrap();
        PairInfo {
            token_a: config.token_0,
            token_b: config.token_1,
            reserve_a: self.reserve_0,
            reserve_b: self.reserve_1,
            total_shares: token::total_supply(&self.ledger),
            fee_bps: self.fee_bps,
        }
    }

    /// The account of the pool itself.
    pub fn address(&self) -> (a: Address)
        ensures
            a == self@.address,
    {
        self.address
    }

    /// The first asset in canonical order.
    pub fn token_0(&self) -> (a: Address)
        requires
            self@.config is Some,
        ensures
            a == self@.config->0.token_0,
    {
        self.config.unwrap().token_0
    }

    /// The second asset in canonical order.
    pub fn token_1(&self) -> (a: Address)
        requires
            self@.config is Some,
        ensures
            a == self@.config->0.token_1,
    {
        self.config.unwrap().token_1
    }

    /// The asset that is traded against `token`: the pool's other asset
    /// where `token` is one of the two, and `None` otherwise.
    pub fn counterpart(&self, token: &Address) -> (other: Option<Address>)
        ensures
            other == spec_counterpart(self@, *token),
    {
        match self.config {
            None => None,
            Some(c) => {
                if *token == c.token_0 {
                    Some(c.token_1)
                } else if *token == c.token_1 {
                    Some(c.token_0)
                } else {
                    None
                }
            },
        }
    }

    /// The reserves of asset 0 and asset 1. Neither is negative.
    pub fn get_reserves(&self) -> (reserves: (i128, i128))
        ensures
            reserves.0 == self@.reserve_0,
            reserves.1 == self@.reserve_1,
            reserves.0 >= 0,
            reserves.1 >= 0,
    {
        proof {
            use_type_invariant(self);
        }
        (self.reserve_0, self.reserve_1)
    }

    /// The account that administers the pool.
    pub fn factory(&self) -> (a: Address)
        requires
            self@.config is Some,
        ensures
            a == self@.config->0.factory,
    {
        self.config.unwrap().factory
    }

    /// The swap fee in basis points; at most 10000.
    pub fn fee_bps(&self) -> (fee: u32)
        ensures
            fee == self@.fee_bps,
            fee <= 10_000,
    {
        proof {
            use_type_invariant(self);
        }
        self.fee_bps
    }

    /// The product of the reserves as of the last deposit or withdrawal.
    pub fn k_last(&self) -> (k: i128)
        ensures
            k == self@.k_last,
    {
        self.k_last
    }

    /// What a swap of `amount_in` of `token_in` would yield now.
    ///
    /// `NotInitialized` before initialisation; `InvalidToken` where
    /// `token_in` is neither asset; otherwise as `amm::get_amount_out` on the
    /// reserves of the two sides.
    pub fn get_amount_out(
        &self,
        amount_in: i128,
        token_in: &Address,
    ) -> (r: Result<i128, AstroSwapError>)
        ensures
            r == spec_pair_get_amount_out(self@, amount_in as int, *token_in),
    {
        let config = match self.config {
            Some(c) => c,
            None => {
                return Err(AstroSwapError::NotInitialized);
            },
        };
        if *token_in == config.token_0 {
            amm::get_amount_out(amount_in, self.reserve_0, self.reserve_1, self.fee_bps)
        } else if *token_in == config.token_1 {
            amm::get_amount_out(amount_in, self.reserve_1, self.reserve_0, self.fee_bps)
        } else {
            Err(AstroSwapError::InvalidToken)
        }
    }

    /// What would have to be paid now for `amount_out` of `token_out`.
    ///
    /// `NotInitialized` before initialisation; `InvalidToken` where
    /// `token_out` is neither asset; otherwise as `amm::get_amount_in` on the
    /// reserves of the two sides.
    pub fn get_amount_in(
        &self,
        amount_out: i128,
        token_out: &Address,
    ) -> (r: Result<i128, AstroSwapError>)
        ensures
            r == spec_pair_get_amount_in(self@, amount_out as int, *token_out),
    {
        let config = match self.config {
            Some(c) => c,
            None => {
                return Err(AstroSwapError::NotInitialized);
            },
        };
        if *token_out == config.token_0 {
            amm::get_amount_in(amount_out, self.reserve_1, self.reserve_0, self.fee_bps)
        } else if *token_out == config.token_1 {
            amm::get_amount_in(amount_out, self.reserve_0, self.reserve_1, self.fee_bps)
        } else {
            Err(AstroSwapError::InvalidToken)
        }
    }

    /// The name of the share token.
    pub fn name(&self) -> (r: String)
        ensures
            r@ == "AstroSwap LP Token"@,
    {
        token::name()
    }

    /// The ticker symbol of the share token.
    pub fn symbol(&self) -> (r: String)
        ensures
            r@ == "ASTRO-LP"@,
    {
        token::symbol()
    }

    /// The number of decimal places in which share amounts are displayed.
    pub fn decimals(&self) -> (r: u32)
        ensures
            r == 7,
    {
        token::decimals()
    }

    /// The number of shares in existence: the sum of all balances.
    pub fn total_supply(&self) -> (r: i128)
        ensures
            r == self@.shares.total_supply,
            r == sum_of_balances(self@.shares.balances),
            r >= 0,
    {
        token::total_supply(&self.ledger)
    }

    /// The number of shares that `owner` holds.
    pub fn balance(&self, owner: &Address) -> (r: i128)
        ensures
            r == balance_at(self@.shares.balances, *owner),
            0 <= r <= self@.shares.total_supply,
    {
        token::balance_of(&self.ledger, owner)
    }

    /// The number of shares that `spender` may still move out of `owner`'s balance.
    pub fn allowance(&self, owner: &Address, spender: &Address) -> (r: i128)
        ensures
            r == allowance_at(self@.shares.allowances, *owner, *spender),
            r >= 0,
    {
        token::allowance(&self.ledger, owner, spender)
    }

    /// Moves `amount` shares from `from` to `to`, as `token::transfer` does.
    /// `Unauthorized` where `from` is the pool's own account.
    pub fn transfer(
        &mut self,
        from: &Address,
        to: &Address,
        amount: i128,
    ) -> (r: Result<(), AstroSwapError>)
        ensures
            final(self).well_formed(),
            pair_outcome(
                r,
                *old(self),
                *final(self),
                spec_on_ledger(
                    old(self)@,
                    *from,
                    token::spec_transfer(old(self)@.shares, *from, *to, amount as int),
                ),
            ),
    {
        proof {
            use_type_invariant(&*self);
            lemma_supply_is_sum_of_balances(self.ledger);
        }
        if *from == self.address {
            return Err(AstroSwapError::Unauthorized);
        }
        let mut ledger = ShareLedger::new();
        std::mem::swap(&mut self.ledger, &mut ledger);
        let r = token::transfer(&mut ledger, from, to, amount);
        proof {
            lemma_supply_is_sum_of_balances(ledger);
        }
        std::mem::swap(&mut self.ledger, &mut ledger);
        r
    }

    /// Moves `amount` shares from `from` to `to` on `spender`'s request, as
    /// `token::transfer_from` does. `Unauthorized` where `spender` is the
    /// pool's own account.
    pub fn transfer_from(
        &mut self,
        spender: &Address,
        from: &Address,
        to: &Address,
        amount: i128,
    ) -> (r: Result<(), AstroSwapError>)
        ensures
            final(self).well_formed(),
            pair_outcome(
                r,
                *old(self),
                *final(self),
                spec_on_ledger(
                    old(self)@,
                    *spender,
                    token::spec_transfer_from(
                        old(self)@.shares,
                        *spender,
                        *from,
                        *to,
                        amount as int,
                    ),
                ),
            ),
    {
        proof {
            use_type_invariant(&*self);
            lemma_supply_is_sum_of_balances(self.ledger);
            assert(allowance_at(self@.shares.allowances, self@.address, *spender) == 0);
        }
        if *spender == self.address {
            return Err(AstroSwapError::Unauthorized);
        }
        let ghost before = self@;
        let mut ledger = ShareLedger::new();
        std::mem::swap(&mut self.ledger, &mut ledger);
        let r = token::transfer_from(&mut ledger, spender, from, to, amount);
        proof {
            lemma_supply_is_sum_of_balances(ledger);
            assert forall|other: Address| #[trigger]
                allowance_at(ledger@.allowances, before.address, other) == 0 by {
                assert(allowance_at(before.shares.allowances, before.address, other) == 0);
            }
        }
        std::mem::swap(&mut self.ledger, &mut ledger);
        r
    }

    /// Sets what `spender` may move out of `owner`'s balance, as
    /// `token::approve` does. `Unauthorized` where `owner` is the pool's own
    /// account.
    pub fn approve(
        &mut self,
        owner: &Address,
        spender: &Address,
        amount: i128,
    ) -> (r: Result<(), AstroSwapError>)
        ensures
            final(self).well_formed(),
            pair_outcome(
                r,
                *old(self),
                *final(self),
                spec_on_ledger(
                    old(self)@,
                    *owner,
                    token::spec_approve(old(self)@.shares, *owner, *spender, amount as int),
                ),
            ),
    {
        proof {
            use_type_invariant(&*self);
        }
        if *owner == self.address {
            return Err(AstroSwapError::Unauthorized);
        }
        let ghost before = self@;
        let mut ledger = ShareLedger::new();
        std::mem::swap(&mut self.ledger, &mut ledger);
        let r = token::approve(&mut ledger, owner, spender, amount);
        proof {
            assert forall|other: Address| #[trigger]
                allowance_at(ledger@.allowances, before.address, other) == 0 by {
                assert(allowance_at(before.shares.allowances, before.address, other) == 0);
            }
        }
        std::mem::swap(&mut self.ledger, &mut ledger);
        r
    }

    /// Destroys `amount` of the shares that `from` holds, as `token::burn`
    /// does; the reserves stay as they are. `Unauthorized` where `from` is
    /// the pool's own account.
    pub fn burn(&mut self, from: &Address, amount: i128) -> (r: Result<(), AstroSwapError>)
        ensures
            final(self).well_formed(),
            pair_outcome(
                r,
                *old(self),
                *final(self),
                spec_on_ledger(
                    old(self)@,
                    *from,
                    token::spec_burn(old(self)@.shares, *from, amount as int),
                ),
            ),
    {
        proof {
            use_type_invariant(&*self);
            lemma_supply_is_sum_of_balances(self.ledger);
        }
        if *from == self.address {
            return Err(AstroSwapError::Unauthorized);
        }
        let mut ledger = ShareLedger::new();
        std::mem::swap(&mut self.ledger, &mut ledger);
        let r = token::burn(&mut ledger, from, amount);
        proof {
            lemma_supply_is_sum_of_balances(ledger);
        }
        std::mem::swap(&mut self.ledger, &mut ledger);
        r
    }
}

/// The view of every pool is valid.
pub proof fn lemma_view_is_valid(pool: AstroSwapPair)
    requires
        pool.well_formed(),
    ensures
        view_is_valid(pool@),
{
    lemma_supply_is_sum_of_balances(pool.ledger);
}

} // verus!
