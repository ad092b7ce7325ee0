use astroswap::amm::{get_amount_in, get_amount_out};
use astroswap::math::verify_k_invariant;
use astroswap::error::AstroSwapError;
use astroswap::pair::{AstroSwapPair, PairConfig, PairParts};
use astroswap::token::Entry;
use astroswap::types::{Address, AssetTransfer, PairInfo};

fn account(n: u128) -> Address {
    Address::account(0, n)
}

fn contract(n: u128) -> Address {
    Address::contract(0, n)
}

const USER: u128 = 1;
const FACTORY: u128 = 2;
const TOKEN_0: u128 = 3;
const TOKEN_1: u128 = 4;
const POOL: u128 = 5;

fn fresh_pair() -> AstroSwapPair {
    let mut pair = AstroSwapPair::new(contract(POOL));
    pair.initialize(&contract(FACTORY), &contract(TOKEN_0), &contract(TOKEN_1)).unwrap();
    pair
}

fn funded_pair() -> AstroSwapPair {
    let mut pair = fresh_pair();
    pair.deposit(&account(USER), 100_0000000, 100_0000000, 0, 0).unwrap();
    pair
}

#[test]
fn new_pool_is_empty_and_uninitialised() {
    let pair = AstroSwapPair::new(contract(POOL));
    assert!(!pair.is_initialized());
    assert!(!pair.is_locked());
    assert!(!pair.is_paused());
    assert_eq!(pair.address(), contract(POOL));
    assert_eq!(pair.get_reserves(), (0, 0));
    assert_eq!(pair.k_last(), 0);
    assert_eq!(pair.fee_bps(), 30);
    assert_eq!(pair.total_supply(), 0);
    assert_eq!(pair.name(), "AstroSwap LP Token");
    assert_eq!(pair.symbol(), "ASTRO-LP");
    assert_eq!(pair.decimals(), 7);
}

#[test]
fn initialize_orders_the_assets() {
    let mut pair = AstroSwapPair::new(contract(POOL));
    // handed over in the reverse order
    pair.initialize(&contract(FACTORY), &contract(TOKEN_1), &contract(TOKEN_0)).unwrap();
    assert!(pair.is_initialized());
    assert_eq!(pair.token_0(), contract(TOKEN_0));
    assert_eq!(pair.token_1(), contract(TOKEN_1));
    assert_eq!(pair.factory(), contract(FACTORY));
    assert_eq!(pair.get_reserves(), (0, 0));
    assert_eq!(
        pair.get_info(),
        PairInfo {
            token_a: contract(TOKEN_0),
            token_b: contract(TOKEN_1),
            reserve_a: 0,
            reserve_b: 0,
            total_shares: 0,
            fee_bps: 30,
        }
    );
}

#[test]
fn counterpart_is_the_other_asset() {
    let pair = fresh_pair();
    assert_eq!(pair.counterpart(&contract(TOKEN_0)), Some(contract(TOKEN_1)));
    assert_eq!(pair.counterpart(&contract(TOKEN_1)), Some(contract(TOKEN_0)));
    assert_eq!(pair.counterpart(&contract(77)), None);
    assert_eq!(AstroSwapPair::new(contract(POOL)).counterpart(&contract(TOKEN_0)), None);
}

#[test]
fn initialize_opens_the_lock() {
    let mut pair = AstroSwapPair::new(contract(POOL));
    pair.acquire_lock().unwrap();
    assert!(pair.is_locked());
    pair.initialize(&contract(FACTORY), &contract(TOKEN_0), &contract(TOKEN_1)).unwrap();
    assert!(!pair.is_locked());
}

#[test]
fn uninitialised_pool_refuses_every_operation() {
    let mut pair = AstroSwapPair::new(contract(POOL));
    let user = account(USER);
    let token = contract(TOKEN_0);
    let e = AstroSwapError::NotInitialized;
    assert_eq!(pair.deposit(&user, 10, 10, 0, 0), Err(e));
    assert_eq!(pair.withdraw(&user, 10, 0, 0), Err(e));
    assert_eq!(pair.swap(&user, &token, 10, 0), Err(e));
    assert_eq!(pair.swap_from_balance(&token, 0, 10, 10), Err(e));
    assert_eq!(pair.sync(&user, 10, 10), Err(e));
    assert_eq!(pair.skim(&user, 10, 10), Err(e));
    assert_eq!(pair.set_paused(&user, true), Err(e));
    assert_eq!(pair.get_amount_out(10, &token), Err(e));
    assert_eq!(pair.get_amount_in(10, &token), Err(e));
    assert!(!pair.is_paused());
}

#[test]
fn closed_lock_refuses_every_guarded_entry() {
    let mut pair = funded_pair();
    let user = account(USER);
    let factory = contract(FACTORY);
    let token = contract(TOKEN_0);
    let supply = pair.total_supply();
    let held = pair.balance(&user);

    assert_eq!(pair.acquire_lock(), Ok(()));
    assert!(pair.is_locked());

    let e = AstroSwapError::Reentrancy;
    assert_eq!(pair.acquire_lock(), Err(e));
    assert_eq!(pair.deposit(&user, 10_0000000, 10_0000000, 0, 0), Err(e));
    assert_eq!(pair.withdraw(&user, 10, 0, 0), Err(e));
    assert_eq!(pair.swap(&user, &token, 10_0000000, 0), Err(e));
    assert_eq!(pair.swap_from_balance(&token, 0, 110_0000000, 100_0000000), Err(e));
    assert_eq!(pair.skim(&factory, 110_0000000, 100_0000000), Err(e));
    // the lock comes before the checks on the arguments
    assert_eq!(pair.deposit(&user, -1, 0, 0, 0), Err(e));
    assert_eq!(pair.skim(&user, 0, 0), Err(e));
    assert_eq!(pair.require_open(), Err(e));
    // the pause comes before the lock
    pair.set_paused(&factory, true).unwrap();
    let paused = AstroSwapError::ContractPaused;
    assert_eq!(pair.require_open(), Err(paused));
    assert_eq!(pair.deposit(&user, 10_0000000, 10_0000000, 0, 0), Err(paused));
    assert_eq!(pair.withdraw(&user, 10, 0, 0), Err(paused));
    assert_eq!(pair.swap(&user, &token, 10_0000000, 0), Err(paused));
    assert_eq!(pair.swap_from_balance(&token, 0, 110_0000000, 100_0000000), Err(paused));
    // a skim is not held up by the pause, and finds the lock closed
    assert_eq!(pair.skim(&factory, 110_0000000, 100_0000000), Err(e));
    assert_eq!(pair.acquire_lock(), Err(e));
    pair.set_paused(&factory, false).unwrap();

    // nothing has happened
    assert!(pair.is_locked());
    assert_eq!(pair.get_reserves(), (100_0000000, 100_0000000));
    assert_eq!(pair.total_supply(), supply);
    assert_eq!(pair.balance(&user), held);

    pair.release_lock();
    assert!(!pair.is_locked());
    assert!(pair.swap(&user, &token, 10_0000000, 0).is_ok());
    // every entry leaves the lock open behind it
    assert!(!pair.is_locked());
    assert!(pair.deposit(&user, 0, 0, 0, 0).is_err());
    assert!(!pair.is_locked());
}

#[test]
fn open_pool_passes_both_gates() {
    let mut pair = funded_pair();
    assert_eq!(pair.require_open(), Ok(()));
    pair.acquire_lock().unwrap();
    assert_eq!(pair.require_open(), Err(AstroSwapError::Reentrancy));
    pair.release_lock();
    pair.set_paused(&contract(FACTORY), true).unwrap();
    assert_eq!(pair.require_open(), Err(AstroSwapError::ContractPaused));
}

#[test]
fn pause_is_for_the_factory_only() {
    let mut pair = fresh_pair();
    assert_eq!(pair.set_paused(&account(USER), true), Err(AstroSwapError::Unauthorized));
    assert!(!pair.is_paused());
    assert_eq!(pair.set_paused(&contract(FACTORY), true), Ok(()));
    assert!(pair.is_paused());
    assert_eq!(pair.withdraw(&account(USER), 1, 0, 0), Err(AstroSwapError::ContractPaused));
    assert_eq!(
        pair.swap_from_balance(&contract(TOKEN_0), 0, 1, 1),
        Err(AstroSwapError::ContractPaused)
    );
}

#[test]
fn pool_account_cannot_act() {
    let mut pair = funded_pair();
    let own = contract(POOL);
    let user = account(USER);
    let e = AstroSwapError::Unauthorized;
    assert_eq!(pair.balance(&own), 1000);
    assert_eq!(pair.deposit(&own, 10, 10, 0, 0), Err(e));
    assert_eq!(pair.withdraw(&own, 1000, 0, 0), Err(e));
    assert_eq!(pair.swap(&own, &contract(TOKEN_0), 10, 0), Err(e));
    assert_eq!(pair.transfer(&own, &user, 1000), Err(e));
    assert_eq!(pair.approve(&own, &user, 1000), Err(e));
    assert_eq!(pair.burn(&own, 1000), Err(e));
    assert_eq!(pair.transfer_from(&own, &user, &own, 1), Err(e));
    // nobody holds an allowance over the locked shares
    assert_eq!(
        pair.transfer_from(&user, &own, &user, 1000),
        Err(AstroSwapError::InsufficientAllowance)
    );
    assert_eq!(pair.balance(&own), 1000);
    // shares can be sent to the pool, where they stay
    pair.transfer(&user, &own, 500).unwrap();
    assert_eq!(pair.balance(&own), 1500);
}

#[test]
fn first_deposit_needs_more_than_the_minimum_liquidity() {
    let mut pair = fresh_pair();
    let user = account(USER);
    assert_eq!(pair.deposit(&user, 1000, 1000, 0, 0), Err(AstroSwapError::InsufficientLiquidity));
    assert_eq!(pair.total_supply(), 0);
    assert_eq!(pair.get_reserves(), (0, 0));
    assert_eq!(pair.deposit(&user, 1001, 1001, 0, 0), Ok((1001, 1001, 1)));
    assert_eq!(pair.total_supply(), 1001);
    assert_eq!(pair.balance(&user), 1);
    assert_eq!(pair.balance(&contract(POOL)), 1000);
    assert_eq!(pair.k_last(), 1001 * 1001);
}

#[test]
fn first_deposit_ignores_the_minimums() {
    let mut pair = fresh_pair();
    let r = pair.deposit(&account(USER), 4_0000000, 1_0000000, 9_0000000, 9_0000000);
    assert_eq!(r, Ok((4_0000000, 1_0000000, 2_0000000 - 1000)));
    assert_eq!(pair.get_reserves(), (4_0000000, 1_0000000));
    assert_eq!(pair.k_last(), 4_0000000 * 1_0000000);
}

#[test]
fn later_deposit_takes_the_side_that_fits() {
    let mut pair = fresh_pair();
    let user = account(USER);
    pair.deposit(&user, 100_0000000, 200_0000000, 0, 0).unwrap();
    let supply = pair.total_supply();
    assert_eq!(supply, 1414213562);
    // too little of asset 1 is offered: asset 0 is cut down instead
    let r = pair.deposit(&account(9), 50_0000000, 60_0000000, 0, 0).unwrap();
    assert_eq!((r.0, r.1), (30_0000000, 60_0000000));
    // shares in proportion: 30 / 100 of the supply, rounded down
    assert_eq!(r.2, 30_0000000 * supply / 100_0000000);
    assert_eq!(pair.balance(&account(9)), r.2);
    assert_eq!(pair.total_supply(), supply + r.2);
    assert_eq!(pair.get_reserves(), (130_0000000, 260_0000000));
    assert_eq!(pair.k_last(), 130_0000000 * 260_0000000);
    // the cut-down amount is held to its minimum
    assert_eq!(
        pair.deposit(&account(9), 50_0000000, 60_0000000, 30_0000001, 0),
        Err(AstroSwapError::MinimumNotMet)
    );
    assert_eq!(pair.get_reserves(), (130_0000000, 260_0000000));
}

#[test]
fn deposit_reports_overflow_and_changes_nothing() {
    let mut pair = fresh_pair();
    let user = account(USER);
    // the product of the desired amounts does not fit
    assert_eq!(pair.deposit(&user, i128::MAX, 2, 0, 0), Err(AstroSwapError::Overflow));
    pair.deposit(&user, 1 << 63, 1 << 63, 0, 0).unwrap();
    // the product of the new reserves does not fit
    assert_eq!(pair.deposit(&user, 1 << 63, 1 << 63, 0, 0), Err(AstroSwapError::Overflow));
    assert_eq!(pair.get_reserves(), (1 << 63, 1 << 63));
    assert_eq!(pair.total_supply(), 1 << 63);
    assert_eq!(pair.balance(&user), (1 << 63) - 1000);
}

#[test]
fn deposit_then_withdraw_returns_what_was_paid() {
    let mut pair = funded_pair();
    let depositor = account(77);
    let (amount_0, amount_1, shares) = pair.deposit(&depositor, 1000, 1000, 0, 0).unwrap();
    assert_eq!((amount_0, amount_1, shares), (1000, 1000, 1000));
    let (out_0, out_1) = pair.withdraw(&depositor, shares, 0, 0).unwrap();
    assert!(out_0 <= 1000 && out_1 <= 1000);
    assert_eq!((out_0, out_1), (1000, 1000));
    assert_eq!(pair.balance(&depositor), 0);
    assert_eq!(pair.get_reserves(), (100_0000000, 100_0000000));
}

#[test]
fn deposit_then_withdraw_never_returns_more() {
    let mut pair = fresh_pair();
    pair.deposit(&account(USER), 3_0000000, 7_0000000, 0, 0).unwrap();
    pair.swap(&account(USER), &contract(TOKEN_0), 1_2345678, 0).unwrap();
    let depositor = account(77);
    let (amount_0, amount_1, shares) = pair.deposit(&depositor, 999_999, 999_999, 0, 0).unwrap();
    let (out_0, out_1) = pair.withdraw(&depositor, shares, 0, 0).unwrap();
    assert!(out_0 <= amount_0);
    assert!(out_1 <= amount_1);
    assert_eq!(pair.balance(&depositor), 0);
}

#[test]
fn withdraw_pays_the_pro_rata_part() {
    let mut pair = fresh_pair();
    let user = account(USER);
    pair.deposit(&user, 100_0000000, 400_0000000, 0, 0).unwrap();
    let supply = pair.total_supply();
    assert_eq!(supply, 200_0000000);
    let r = pair.withdraw(&user, 50_0000000, 0, 0).unwrap();
    assert_eq!(r, (25_0000000, 100_0000000));
    assert_eq!(pair.get_reserves(), (75_0000000, 300_0000000));
    assert_eq!(pair.total_supply(), 150_0000000);
    assert_eq!(pair.k_last(), 75_0000000 * 300_0000000);
    // rounds down
    let r = pair.withdraw(&user, 1, 0, 0).unwrap();
    assert_eq!(r, (0, 2));
}

#[test]
fn withdraw_beyond_the_balance_is_refused_without_underflow() {
    let mut pair = funded_pair();
    let user = account(USER);
    let stranger = account(8);
    assert_eq!(pair.withdraw(&stranger, 1, 0, 0), Err(AstroSwapError::InsufficientBalance));
    assert_eq!(
        pair.withdraw(&user, i128::MAX, 0, 0),
        Err(AstroSwapError::InsufficientBalance)
    );
    assert_eq!(pair.balance(&stranger), 0);
    assert_eq!(pair.balance(&user), 100_0000000 - 1000);
    assert_eq!(pair.total_supply(), 100_0000000);
}

#[test]
fn swap_gives_the_quoted_amount_and_moves_the_reserves() {
    let mut pair = funded_pair();
    let user = account(USER);
    let quoted = pair.get_amount_out(10_0000000, &contract(TOKEN_0)).unwrap();
    assert_eq!(quoted, 90661089);
    assert_eq!(quoted, get_amount_out(10_0000000, 100_0000000, 100_0000000, 30).unwrap());
    let k = pair.k_last();
    assert_eq!(pair.swap(&user, &contract(TOKEN_0), 10_0000000, quoted), Ok(quoted));
    assert_eq!(pair.get_reserves(), (110_0000000, 100_0000000 - quoted));
    // a swap leaves the recorded product as it was
    assert_eq!(pair.k_last(), k);
    // the other direction
    let back = pair.get_amount_out(5_0000000, &contract(TOKEN_1)).unwrap();
    assert_eq!(pair.swap(&user, &contract(TOKEN_1), 5_0000000, 0), Ok(back));
    assert_eq!(pair.get_reserves(), (110_0000000 - back, 100_0000000 - quoted + 5_0000000));
}

#[test]
fn quoted_output_never_fails_on_slippage() {
    let mut pair = funded_pair();
    let user = account(USER);
    for (token, amount) in [(TOKEN_0, 1i128), (TOKEN_1, 12345), (TOKEN_0, 99_0000000), (TOKEN_1, 7)] {
        let quoted = pair.get_amount_out(amount, &contract(token)).unwrap();
        assert_eq!(pair.swap(&user, &contract(token), amount, quoted), Ok(quoted));
    }
    let quoted = pair.get_amount_out(1_0000000, &contract(TOKEN_0)).unwrap();
    assert_eq!(
        pair.swap(&user, &contract(TOKEN_0), 1_0000000, quoted + 1),
        Err(AstroSwapError::SlippageExceeded)
    );
}

#[test]
fn product_of_reserves_never_falls_across_swaps() {
    let mut pair = fresh_pair();
    let user = account(USER);
    pair.deposit(&user, 1234567, 7654321, 0, 0).unwrap();
    let mut amount = 1i128;
    for round in 0..40 {
        let (r0, r1) = pair.get_reserves();
        let token = if round % 3 == 0 { TOKEN_1 } else { TOKEN_0 };
        if pair.swap(&user, &contract(token), amount, 0).is_ok() {
            let (n0, n1) = pair.get_reserves();
            assert!(n0 * n1 >= r0 * r1);
        } else {
            assert_eq!(pair.get_reserves(), (r0, r1));
        }
        amount = amount * 2 + 1;
    }
}

#[test]
fn swap_on_an_empty_pool_lacks_liquidity() {
    let mut pair = fresh_pair();
    assert_eq!(
        pair.swap(&account(USER), &contract(TOKEN_0), 10, 0),
        Err(AstroSwapError::InsufficientLiquidity)
    );
    assert_eq!(
        pair.get_amount_out(10, &contract(TOKEN_1)),
        Err(AstroSwapError::InsufficientLiquidity)
    );
    assert_eq!(pair.get_amount_out(10, &contract(77)), Err(AstroSwapError::InvalidToken));
    assert_eq!(pair.get_amount_in(10, &contract(77)), Err(AstroSwapError::InvalidToken));
}

#[test]
fn swap_reports_overflow_and_changes_nothing() {
    let mut pair = fresh_pair();
    let user = account(USER);
    let factory = contract(FACTORY);
    pair.deposit(&user, 1_0000000, 1_0000000, 0, 0).unwrap();
    pair.sync(&factory, 1i128 << 100, 3).unwrap();
    // the fee-adjusted input does not fit
    assert_eq!(
        pair.swap(&user, &contract(TOKEN_1), i128::MAX / 2, 0),
        Err(AstroSwapError::Overflow)
    );
    assert_eq!(pair.get_reserves(), (1i128 << 100, 3));
    // the input reserve would not fit
    pair.sync(&factory, 5, i128::MAX - 10).unwrap();
    assert_eq!(pair.swap(&user, &contract(TOKEN_1), 11, 0), Err(AstroSwapError::Overflow));
    assert_eq!(pair.get_reserves(), (5, i128::MAX - 10));
}

#[test]
fn swap_goes_through_whatever_the_size_of_the_product() {
    let mut pair = fresh_pair();
    let user = account(USER);
    let factory = contract(FACTORY);
    pair.deposit(&user, 1_0000000, 1_0000000, 0, 0).unwrap();
    // reserves whose product is just below the largest i128
    let (r0, r1) = (i128::MAX >> 20, 1i128 << 20);
    pair.sync(&factory, r0, r1).unwrap();
    let quoted = pair.get_amount_out(1 << 20, &contract(TOKEN_1)).unwrap();
    assert_eq!(pair.swap(&user, &contract(TOKEN_1), 1 << 20, quoted), Ok(quoted));
    let (n0, n1) = pair.get_reserves();
    assert_eq!((n0, n1), (r0 - quoted, r1 + (1 << 20)));
    // the product has grown beyond 128 bits, and is still known not to have fallen
    assert!(n0.checked_mul(n1).is_none());
    assert_eq!(verify_k_invariant(n0, n1, r0, r1), Ok(true));
    assert_eq!(verify_k_invariant(r0, r1, n0, n1), Ok(false));
    // further swaps go on, in both directions
    let back = pair.get_amount_out(1 << 60, &contract(TOKEN_0)).unwrap();
    assert_eq!(pair.swap(&user, &contract(TOKEN_0), 1 << 60, 0), Ok(back));
    let (m0, m1) = pair.get_reserves();
    assert_eq!(verify_k_invariant(m0, m1, n0, n1), Ok(true));
    // a withdrawal records the product, and is refused while it does not fit
    pair.sync(&factory, n0, n1).unwrap();
    assert_eq!(pair.withdraw(&user, 1, 0, 0), Err(AstroSwapError::Overflow));
    assert_eq!(pair.get_reserves(), (n0, n1));
    assert_eq!(pair.balance(&user), 1_0000000 - 1000);
}

#[test]
fn pool_quotes_agree_with_the_formulas() {
    let mut pair = fresh_pair();
    pair.deposit(&account(USER), 100_0000000, 300_0000000, 0, 0).unwrap();
    assert_eq!(
        pair.get_amount_out(5_0000000, &contract(TOKEN_0)),
        get_amount_out(5_0000000, 100_0000000, 300_0000000, 30)
    );
    assert_eq!(
        pair.get_amount_out(5_0000000, &contract(TOKEN_1)),
        get_amount_out(5_0000000, 300_0000000, 100_0000000, 30)
    );
    // to receive asset 0 one pays asset 1
    assert_eq!(
        pair.get_amount_in(5_0000000, &contract(TOKEN_0)),
        get_amount_in(5_0000000, 300_0000000, 100_0000000, 30)
    );
    assert_eq!(
        pair.get_amount_in(5_0000000, &contract(TOKEN_1)),
        get_amount_in(5_0000000, 100_0000000, 300_0000000, 30)
    );
    assert_eq!(
        pair.get_amount_in(100_0000000, &contract(TOKEN_0)),
        Err(AstroSwapError::InsufficientLiquidity)
    );
}

#[test]
fn swap_from_balance_takes_what_was_paid_in() {
    let mut pair = funded_pair();
    let token_0 = contract(TOKEN_0);
    // ten units of asset 0 have arrived
    let r = pair.swap_from_balance(&token_0, 0, 110_0000000, 100_0000000);
    assert_eq!(r, Ok((10_0000000, 90661089)));
    assert_eq!(pair.get_reserves(), (110_0000000, 100_0000000 - 90661089));
    // asset 1 arrives, and asset 0 had a donation on top
    let (r0, r1) = pair.get_reserves();
    let out = get_amount_out(1_0000000, r1, r0, 30).unwrap();
    let r = pair.swap_from_balance(&contract(TOKEN_1), out, r0 + 55, r1 + 1_0000000);
    assert_eq!(r, Ok((1_0000000, out)));
    // the reserves follow the balances
    assert_eq!(pair.get_reserves(), (r0 + 55 - out, r1 + 1_0000000));
}

#[test]
fn swap_from_balance_reports_each_error() {
    let mut pair = funded_pair();
    let token_0 = contract(TOKEN_0);
    let r = 100_0000000i128;
    assert_eq!(
        pair.swap_from_balance(&contract(77), 0, r + 10, r),
        Err(AstroSwapError::InvalidToken)
    );
    // nothing has arrived
    assert_eq!(pair.swap_from_balance(&token_0, 0, r, r), Err(AstroSwapError::InvalidAmount));
    assert_eq!(pair.swap_from_balance(&token_0, 0, r - 1, r), Err(AstroSwapError::InvalidAmount));
    assert_eq!(
        pair.swap_from_balance(&token_0, 0, i128::MIN, r),
        Err(AstroSwapError::InvalidAmount)
    );
    assert_eq!(
        pair.swap_from_balance(&token_0, 9871581, r + 1_0000000, r),
        Err(AstroSwapError::SlippageExceeded)
    );
    // the output balance cannot cover the output
    assert_eq!(
        pair.swap_from_balance(&token_0, 0, r + 1_0000000, 5),
        Err(AstroSwapError::InvalidArgument)
    );
    assert_eq!(
        pair.swap_from_balance(&token_0, 0, r + 1_0000000, i128::MIN),
        Err(AstroSwapError::Underflow)
    );
    // the output balance is short of the reserve: the product would fall
    assert_eq!(
        pair.swap_from_balance(&token_0, 0, r + 1_0000000, r - 5_0000000),
        Err(AstroSwapError::InvalidAmount)
    );
    assert_eq!(pair.get_reserves(), (r, r));
    // balances whose product is beyond 128 bits are compared all the same
    assert_eq!(
        pair.swap_from_balance(&token_0, 0, r + 1_0000000, i128::MAX),
        Ok((1_0000000, 9871580))
    );
    assert_eq!(pair.get_reserves(), (r + 1_0000000, i128::MAX - 9871580));
    // and a fall of such a product is found
    let (b0, b1) = pair.get_reserves();
    assert_eq!(
        pair.swap_from_balance(&token_0, 0, b0 + 1, b1 / 2),
        Err(AstroSwapError::InvalidAmount)
    );
    assert_eq!(pair.get_reserves(), (b0, b1));
}

#[test]
fn sync_and_skim_are_for_the_factory_only() {
    let mut pair = funded_pair();
    let factory = contract(FACTORY);
    let user = account(USER);
    assert_eq!(pair.sync(&user, 1, 1), Err(AstroSwapError::Unauthorized));
    assert_eq!(pair.skim(&user, 1, 1), Err(AstroSwapError::Unauthorized));
    assert_eq!(pair.sync(&factory, -1, 1), Err(AstroSwapError::InvalidAmount));
    assert_eq!(pair.sync(&factory, 1, -1), Err(AstroSwapError::InvalidAmount));
    assert_eq!(pair.get_reserves(), (100_0000000, 100_0000000));
    // the excess of each balance over its reserve, and nothing where there is none
    assert_eq!(pair.skim(&factory, 100_0000007, 99_0000000), Ok((7, 0)));
    assert_eq!(pair.skim(&factory, 100_0000000, i128::MAX), Ok((0, i128::MAX - 100_0000000)));
    assert_eq!(pair.skim(&factory, i128::MIN, 0), Ok((0, 0)));
    assert_eq!(pair.get_reserves(), (100_0000000, 100_0000000));
    assert!(!pair.is_locked());
    // sync follows the balances, also while the pool is paused or locked
    pair.set_paused(&factory, true).unwrap();
    pair.acquire_lock().unwrap();
    assert_eq!(pair.sync(&factory, 100_0000007, 99_0000000), Ok(()));
    assert_eq!(pair.get_reserves(), (100_0000007, 99_0000000));
    let supply = pair.total_supply();
    assert_eq!(supply, 100_0000000);
}

#[test]
fn share_operations_of_the_pool() {
    let mut pair = funded_pair();
    let user = account(USER);
    let friend = account(30);
    let held = pair.balance(&user);
    assert_eq!(pair.transfer(&user, &friend, held + 1), Err(AstroSwapError::InsufficientBalance));
    assert_eq!(pair.transfer(&user, &friend, 0), Err(AstroSwapError::InvalidAmount));
    assert_eq!(pair.approve(&user, &friend, -1), Err(AstroSwapError::InvalidAmount));
    assert_eq!(
        pair.transfer_from(&friend, &user, &friend, 1),
        Err(AstroSwapError::InsufficientAllowance)
    );
    pair.approve(&user, &friend, 10).unwrap();
    assert_eq!(
        pair.transfer_from(&friend, &user, &friend, 11),
        Err(AstroSwapError::InsufficientAllowance)
    );
    pair.transfer_from(&friend, &user, &friend, 4).unwrap();
    assert_eq!(pair.allowance(&user, &friend), 6);
    assert_eq!(pair.balance(&friend), 4);
    assert_eq!(pair.burn(&friend, 5), Err(AstroSwapError::InsufficientBalance));
    assert_eq!(pair.burn(&friend, 0), Err(AstroSwapError::InvalidAmount));
    assert_eq!(pair.burn(&friend, 4), Ok(()));
    assert_eq!(pair.balance(&friend), 0);
    assert_eq!(pair.total_supply(), 100_0000000 - 4);
    // burning leaves the reserves to the remaining holders
    assert_eq!(pair.get_reserves(), (100_0000000, 100_0000000));
    assert_eq!(pair.total_supply(), pair.balance(&user) + pair.balance(&contract(POOL)));
    // the friend, holding shares, may withdraw although the pool is the same
    pair.transfer(&user, &friend, 1_0000000).unwrap();
    assert!(pair.withdraw(&friend, 1_0000000, 0, 0).is_ok());
}

#[test]
fn supply_exceeds_the_first_depositor_by_the_minimum_for_good() {
    let mut pair = funded_pair();
    let user = account(USER);
    let token_0 = contract(TOKEN_0);
    assert_eq!(pair.total_supply() - pair.balance(&user), 1000);
    pair.swap(&user, &token_0, 3_0000000, 0).unwrap();
    assert_eq!(pair.total_supply() - pair.balance(&user), 1000);
    pair.deposit(&user, 5_0000000, 5_0000000, 0, 0).unwrap();
    assert_eq!(pair.total_supply() - pair.balance(&user), 1000);
    pair.withdraw(&user, 1234567, 0, 0).unwrap();
    assert_eq!(pair.total_supply() - pair.balance(&user), 1000);
    let all = pair.balance(&user);
    pair.withdraw(&user, all, 0, 0).unwrap();
    assert_eq!(pair.balance(&user), 0);
    assert_eq!(pair.total_supply(), 1000);
    assert_eq!(pair.balance(&contract(POOL)), 1000);
    // what the locked shares stand for stays in the pool
    let (r0, r1) = pair.get_reserves();
    assert!(r0 > 0 && r1 > 0);
}

#[test]
fn quoted_input_buys_at_least_the_requested_output() {
    for (y, rin, rout, fee) in [
        (906i128, 10_000i128, 10_000i128, 30u32),
        (1, 1_000_000_000, 1_000, 30),
        (999, 1_000, 1_000, 0),
        (5_0000000, 300_0000000, 100_0000000, 30),
        (1, 3, 2, 9_999),
    ] {
        let paid = get_amount_in(y, rin, rout, fee).unwrap();
        let got = get_amount_out(paid, rin, rout, fee).unwrap();
        assert!(got >= y);
    }
    // the quoted input can buy more than was asked for
    assert_eq!(get_amount_in(906, 10_000, 10_000, 30), Ok(1001));
    assert_eq!(get_amount_out(1001, 10_000, 10_000, 30), Ok(907));
}

#[test]
fn quoted_input_for_a_quoted_output_is_at_most_one_more_than_was_spent() {
    for (x, rin, rout, fee) in [
        (1000i128, 10_000i128, 10_000i128, 30u32),
        (1_900_000, 1_000_000_000, 1_000, 30),
        (2, 1_000_000_000, 1_000_000_000, 30),
        (10_0000000, 100_0000000, 100_0000000, 30),
    ] {
        let got = get_amount_out(x, rin, rout, fee).unwrap();
        let quoted = get_amount_in(got, rin, rout, fee).unwrap();
        assert!(quoted <= x + 1);
    }
    // here the output is exact and the quote is the input plus one
    assert_eq!(get_amount_out(1000, 1000, 1000, 0), Ok(500));
    assert_eq!(get_amount_in(500, 1000, 1000, 0), Ok(1001));
    // rounding the output down can make it far cheaper than what was spent
    assert_eq!(get_amount_out(1_900_000, 1_000_000_000, 1_000, 30), Ok(1));
    assert_eq!(get_amount_in(1, 1_000_000_000, 1_000, 30), Ok(1_004_015));
}

#[test]
fn pool_survives_being_taken_apart() {
    let mut pair = funded_pair();
    let user = account(USER);
    let friend = account(30);
    pair.approve(&user, &friend, 55).unwrap();
    pair.transfer(&user, &friend, 77).unwrap();
    pair.swap(&user, &contract(TOKEN_0), 1_0000000, 0).unwrap();
    let reserves = pair.get_reserves();
    let supply = pair.total_supply();
    let k = pair.k_last();

    let parts = pair.into_parts();
    assert_eq!(parts.address, contract(POOL));
    assert_eq!(parts.reserve_0, reserves.0);
    assert_eq!(parts.fee_bps, 30);
    assert_eq!(parts.balances.len(), 3);
    assert_eq!(parts.allowances.len(), 1);
    let restored = AstroSwapPair::from_parts(parts).unwrap();

    assert_eq!(restored.get_reserves(), reserves);
    assert_eq!(restored.total_supply(), supply);
    assert_eq!(restored.k_last(), k);
    assert_eq!(restored.balance(&friend), 77);
    assert_eq!(restored.balance(&contract(POOL)), 1000);
    assert_eq!(restored.allowance(&user, &friend), 55);
    assert_eq!(restored.token_0(), contract(TOKEN_0));
    assert_eq!(restored.factory(), contract(FACTORY));
    assert!(!restored.is_locked());
    assert!(!restored.is_paused());
}

fn valid_parts() -> PairParts {
    PairParts {
        address: contract(POOL),
        config: Some(PairConfig {
            factory: contract(FACTORY),
            token_0: contract(TOKEN_0),
            token_1: contract(TOKEN_1),
        }),
        reserve_0: 500,
        reserve_1: 700,
        k_last: 350_000,
        fee_bps: 30,
        locked: true,
        paused: true,
        balances: vec![
            Entry { key: contract(POOL), amount: 1000 },
            Entry { key: account(USER), amount: 4000 },
        ],
        allowances: vec![Entry { key: (account(USER), account(30)), amount: 9 }],
    }
}

#[test]
fn pool_is_made_of_valid_parts() {
    let pair = AstroSwapPair::from_parts(valid_parts()).unwrap();
    assert_eq!(pair.total_supply(), 5000);
    assert_eq!(pair.balance(&account(USER)), 4000);
    assert_eq!(pair.allowance(&account(USER), &account(30)), 9);
    assert_eq!(pair.get_reserves(), (500, 700));
    assert_eq!(pair.k_last(), 350_000);
    assert!(pair.is_locked());
    assert!(pair.is_paused());
    // a pool that has never been used
    let empty = PairParts {
        config: None,
        reserve_0: 0,
        reserve_1: 0,
        k_last: 0,
        paused: false,
        balances: vec![],
        allowances: vec![],
        ..valid_parts()
    };
    assert!(AstroSwapPair::from_parts(empty).is_ok());
}

#[test]
fn pool_is_not_made_of_invalid_parts() {
    let e = Err(AstroSwapError::InvalidArgument);
    let refused = |parts: PairParts| AstroSwapPair::from_parts(parts).map(|_| ());
    assert_eq!(refused(PairParts { reserve_0: -1, ..valid_parts() }), e);
    assert_eq!(refused(PairParts { reserve_1: -1, ..valid_parts() }), e);
    assert_eq!(refused(PairParts { k_last: -1, ..valid_parts() }), e);
    assert_eq!(refused(PairParts { fee_bps: 10_001, ..valid_parts() }), e);
    // the assets out of order, or equal
    let mut parts = valid_parts();
    parts.config = Some(PairConfig {
        factory: contract(FACTORY),
        token_0: contract(TOKEN_1),
        token_1: contract(TOKEN_0),
    });
    assert_eq!(refused(parts), e);
    let mut parts = valid_parts();
    parts.config = Some(PairConfig {
        factory: contract(FACTORY),
        token_0: contract(TOKEN_0),
        token_1: contract(TOKEN_0),
    });
    assert_eq!(refused(parts), e);
    // a pool without assets that is not empty
    assert_eq!(refused(PairParts { config: None, ..valid_parts() }), e);
    // an account with two rows
    let mut parts = valid_parts();
    parts.balances.push(Entry { key: account(USER), amount: 1 });
    assert_eq!(refused(parts), e);
    // a negative balance
    let mut parts = valid_parts();
    parts.balances.push(Entry { key: account(31), amount: -1 });
    assert_eq!(refused(parts), e);
    // balances that add up to too much
    let mut parts = valid_parts();
    parts.balances.push(Entry { key: account(31), amount: i128::MAX });
    assert_eq!(refused(parts), e);
    // a pair of owner and spender with two rows
    let mut parts = valid_parts();
    parts.allowances.push(Entry { key: (account(USER), account(30)), amount: 1 });
    assert_eq!(refused(parts), e);
    // a negative allowance
    let mut parts = valid_parts();
    parts.allowances.push(Entry { key: (account(USER), account(31)), amount: -1 });
    assert_eq!(refused(parts), e);
    // an allowance granted by the pool itself
    let mut parts = valid_parts();
    parts.allowances.push(Entry { key: (contract(POOL), account(31)), amount: 1 });
    assert_eq!(refused(parts), e);
    // less than the minimum liquidity in the pool's own account
    let mut parts = valid_parts();
    parts.balances[0].amount = 999;
    assert_eq!(refused(parts), e);
    // an allowance of zero granted by the pool is nothing granted
    let mut parts = valid_parts();
    parts.allowances.push(Entry { key: (contract(POOL), account(31)), amount: 0 });
    assert_eq!(refused(parts), Ok(()));
}

#[test]
fn settlement_of_deposit_and_withdrawal() {
    let pair = fresh_pair();
    let user = account(USER);
    let own = contract(POOL);
    assert_eq!(
        pair.deposit_transfers(&user, 5, 7),
        Some((
            AssetTransfer { asset: contract(TOKEN_0), from: user, to: own, amount: 5 },
            AssetTransfer { asset: contract(TOKEN_1), from: user, to: own, amount: 7 },
        ))
    );
    assert_eq!(
        pair.withdraw_transfers(&user, 5, 0),
        Some((
            AssetTransfer { asset: contract(TOKEN_0), from: own, to: user, amount: 5 },
            AssetTransfer { asset: contract(TOKEN_1), from: own, to: user, amount: 0 },
        ))
    );
    let blank = AstroSwapPair::new(own);
    assert_eq!(blank.deposit_transfers(&user, 5, 7), None);
    assert_eq!(blank.withdraw_transfers(&user, 5, 7), None);
}

#[test]
fn settlement_of_swaps() {
    let pair = fresh_pair();
    let user = account(USER);
    let own = contract(POOL);
    assert_eq!(
        pair.swap_transfers(&user, &contract(TOKEN_1), 10, 9),
        Some((
            AssetTransfer { asset: contract(TOKEN_1), from: user, to: own, amount: 10 },
            AssetTransfer { asset: contract(TOKEN_0), from: own, to: user, amount: 9 },
        ))
    );
    assert_eq!(
        pair.swap_transfers(&user, &contract(TOKEN_0), 10, 9),
        Some((
            AssetTransfer { asset: contract(TOKEN_0), from: user, to: own, amount: 10 },
            AssetTransfer { asset: contract(TOKEN_1), from: own, to: user, amount: 9 },
        ))
    );
    assert_eq!(pair.swap_transfers(&user, &contract(77), 10, 9), None);
    assert_eq!(
        pair.swap_from_balance_transfer(&account(9), &contract(TOKEN_0), 4),
        Some(AssetTransfer { asset: contract(TOKEN_1), from: own, to: account(9), amount: 4 })
    );
    assert_eq!(pair.swap_from_balance_transfer(&account(9), &contract(77), 4), None);
    assert_eq!(AstroSwapPair::new(own).swap_transfers(&user, &contract(TOKEN_0), 1, 1), None);
}

#[test]
fn settlement_of_skim() {
    let pair = fresh_pair();
    let own = contract(POOL);
    let to = account(9);
    let first = AssetTransfer { asset: contract(TOKEN_0), from: own, to, amount: 3 };
    let second = AssetTransfer { asset: contract(TOKEN_1), from: own, to, amount: 8 };
    assert_eq!(pair.skim_transfers(&to, 3, 8), vec![first, second]);
    assert_eq!(pair.skim_transfers(&to, 3, 0), vec![first]);
    assert_eq!(pair.skim_transfers(&to, 0, 8), vec![second]);
    assert_eq!(pair.skim_transfers(&to, 0, 0), vec![]);
    assert_eq!(AstroSwapPair::new(own).skim_transfers(&to, 3, 8), vec![]);
}

#[test]
fn trades_are_the_same_on_a_pool_without_its_shares() {
    let factory = contract(FACTORY);
    let user = account(USER);
    let token = contract(TOKEN_1);
    let mut whole = funded_pair();
    whole.approve(&user, &account(30), 5).unwrap();
    // the same pool, made again without its balances and allowances
    let mut parts = funded_pair().into_parts();
    parts.balances.clear();
    parts.allowances.clear();
    let mut bare = AstroSwapPair::from_parts(parts).unwrap();
    assert_eq!(bare.total_supply(), 0);

    assert_eq!(bare.get_amount_out(3_0000000, &token), whole.get_amount_out(3_0000000, &token));
    assert_eq!(bare.get_amount_in(3_0000000, &token), whole.get_amount_in(3_0000000, &token));
    assert_eq!(bare.swap(&user, &token, 3_0000000, 0), whole.swap(&user, &token, 3_0000000, 0));
    assert_eq!(bare.get_reserves(), whole.get_reserves());
    let (r0, r1) = whole.get_reserves();
    assert_eq!(
        bare.swap_from_balance(&token, 0, r0 + 9, r1 + 1_0000000),
        whole.swap_from_balance(&token, 0, r0 + 9, r1 + 1_0000000)
    );
    assert_eq!(bare.get_reserves(), whole.get_reserves());
    assert_eq!(bare.skim(&factory, r0 * 2, r1), whole.skim(&factory, r0 * 2, r1));
    assert_eq!(bare.sync(&factory, r0 * 2, r1), whole.sync(&factory, r0 * 2, r1));
    assert_eq!(bare.get_reserves(), whole.get_reserves());
    assert_eq!(bare.set_paused(&factory, true), whole.set_paused(&factory, true));
    assert_eq!(bare.require_open(), whole.require_open());
    assert_eq!(bare.swap(&user, &token, 1, 0), whole.swap(&user, &token, 1, 0));
    assert_eq!(bare.k_last(), whole.k_last());
    assert_eq!(bare.fee_bps(), whole.fee_bps());
    // the shares of each are as they were
    assert_eq!(bare.total_supply(), 0);
    assert_eq!(whole.total_supply(), 100_0000000);
    assert_eq!(whole.allowance(&user, &account(30)), 5);
}
