use astroswap::error::AstroSwapError;
use astroswap::pair::AstroSwapPair;
use astroswap::types::Address;

fn account(n: u128) -> Address {
    Address::account(0, n)
}

fn contract(n: u128) -> Address {
    Address::contract(0, n)
}

// An initialised pair together with its two assets, a user and the factory
fn setup_pair_with_liquidity() -> (AstroSwapPair, Address, Address, Address, Address) {
    let user = account(1);
    let factory = contract(2);
    let token_0_addr = contract(3);
    let token_1_addr = contract(4);

    let mut pair = AstroSwapPair::new(contract(5));
    pair.initialize(&factory, &token_0_addr, &token_1_addr).unwrap();

    (pair, token_0_addr, token_1_addr, user, factory)
}

// ==================== Initialization Tests ====================

#[test]
fn contract_test_initialize() {
    let factory = contract(2);
    let token_0 = contract(3);
    let token_1 = contract(4);

    let mut pair = AstroSwapPair::new(contract(5));
    pair.initialize(&factory, &token_0, &token_1).unwrap();

    assert_eq!(pair.factory(), factory);
    assert_eq!(pair.token_0(), token_0);
    assert_eq!(pair.token_1(), token_1);
    assert_eq!(pair.fee_bps(), 30);
}

#[test]
fn test_same_token_fails() {
    let factory = contract(2);
    let token = contract(3);

    let mut pair = AstroSwapPair::new(contract(5));

    let result = pair.initialize(&factory, &token, &token);
    assert!(result.is_err());
    assert_eq!(result, Err(AstroSwapError::SameToken));
}

#[test]
fn test_initialize_success() {
    let factory = contract(2);
    let token_0 = contract(3);
    let token_1 = contract(4);

    let mut pair = AstroSwapPair::new(contract(5));

    pair.initialize(&factory, &token_0, &token_1).unwrap();

    assert_eq!(pair.factory(), factory);
    assert_eq!(pair.token_0(), token_0);
    assert_eq!(pair.token_1(), token_1);
    assert_eq!(pair.fee_bps(), 30); // Default 0.3% fee
    assert!(!pair.is_paused());
}

#[test]
fn test_initialize_with_same_token_fails() {
    let factory = contract(2);
    let token = contract(3);

    let mut pair = AstroSwapPair::new(contract(5));

    let result = pair.initialize(&factory, &token, &token);
    assert!(result.is_err());
}

#[test]
fn test_double_initialize_fails() {
    let factory = contract(2);
    let token_0 = contract(3);
    let token_1 = contract(4);

    let mut pair = AstroSwapPair::new(contract(5));

    // First initialization succeeds
    pair.initialize(&factory, &token_0, &token_1).unwrap();

    // Second initialization fails
    let result = pair.initialize(&factory, &token_0, &token_1);
    assert!(result.is_err());
    assert_eq!(result, Err(AstroSwapError::AlreadyInitialized));
}

// ==================== Deposit Tests ====================

#[test]
fn test_first_deposit_success() {
    let (mut pair, _token_0_addr, _token_1_addr, user, _) = setup_pair_with_liquidity();

    let amount_0 = 100_0000000i128; // 100 tokens
    let amount_1 = 100_0000000i128;

    let result = pair.deposit(&user, amount_0, amount_1, 0, 0).unwrap();

    // First deposit uses all amounts
    assert_eq!(result.0, amount_0);
    assert_eq!(result.1, amount_1);
    assert!(result.2 > 0); // Received LP tokens

    // Verify reserves updated
    let (reserve_0, reserve_1) = pair.get_reserves();
    assert_eq!(reserve_0, amount_0);
    assert_eq!(reserve_1, amount_1);

    // Verify user received LP tokens
    let user_lp_balance = pair.balance(&user);
    assert!(user_lp_balance > 0);
}

#[test]
fn test_subsequent_deposit_maintains_ratio() {
    let (mut pair, _, _, user, _) = setup_pair_with_liquidity();

    // First deposit
    pair.deposit(&user, 100_0000000, 200_0000000, 0, 0).unwrap();

    // Second deposit - should maintain 1:2 ratio
    let result = pair.deposit(&user, 50_0000000, 200_0000000, 0, 0).unwrap();

    // With 1:2 ratio, 50 token_0 should pair with 100 token_1
    assert_eq!(result.0, 50_0000000);
    assert_eq!(result.1, 100_0000000); // Optimal for maintaining ratio
}

#[test]
fn test_deposit_with_zero_amount_fails() {
    let (mut pair, _, _, user, _) = setup_pair_with_liquidity();

    let result = pair.deposit(&user, 0, 100_0000000, 0, 0);
    assert!(result.is_err());
    assert_eq!(result, Err(AstroSwapError::InvalidAmount));
}

#[test]
fn test_deposit_with_negative_amount_fails() {
    let (mut pair, _, _, user, _) = setup_pair_with_liquidity();

    let result = pair.deposit(&user, -100, 100_0000000, 0, 0);
    assert!(result.is_err());
    assert_eq!(result, Err(AstroSwapError::InvalidAmount));
}

#[test]
fn test_deposit_below_minimum_fails() {
    let (mut pair, _, _, user, _) = setup_pair_with_liquidity();

    // First deposit
    pair.deposit(&user, 100_0000000, 100_0000000, 0, 0).unwrap();

    // Second deposit with minimum too high
    let result = pair.deposit(
        &user,
        50_0000000,
        50_0000000,
        50_0000000,  // min_0 = desired_0, OK
        100_0000000, // min_1 much higher than optimal
    );
    assert!(result.is_err());
    assert_eq!(result, Err(AstroSwapError::MinimumNotMet));
}

// ==================== Withdraw Tests ====================

#[test]
fn test_withdraw_success() {
    let (mut pair, _, _, user, _) = setup_pair_with_liquidity();

    // First deposit
    pair.deposit(&user, 100_0000000, 100_0000000, 0, 0).unwrap();

    let user_lp = pair.balance(&user);
    let half_lp = user_lp / 2;

    // Withdraw half
    let result = pair.withdraw(&user, half_lp, 0, 0).unwrap();

    assert!(result.0 > 0);
    assert!(result.1 > 0);

    // User should have half LP tokens remaining
    assert_eq!(pair.balance(&user), user_lp - half_lp);
}

#[test]
fn test_withdraw_all() {
    let (mut pair, _, _, user, _) = setup_pair_with_liquidity();

    // Deposit
    pair.deposit(&user, 100_0000000, 100_0000000, 0, 0).unwrap();

    let user_lp = pair.balance(&user);

    // Withdraw all
    pair.withdraw(&user, user_lp, 0, 0).unwrap();

    // User should have 0 LP tokens
    assert_eq!(pair.balance(&user), 0);
}

#[test]
fn test_withdraw_zero_fails() {
    let (mut pair, _, _, user, _) = setup_pair_with_liquidity();

    pair.deposit(&user, 100_0000000, 100_0000000, 0, 0).unwrap();

    let result = pair.withdraw(&user, 0, 0, 0);
    assert!(result.is_err());
    assert_eq!(result, Err(AstroSwapError::InvalidAmount));
}

#[test]
fn test_withdraw_more_than_balance_fails() {
    let (mut pair, _, _, user, _) = setup_pair_with_liquidity();

    pair.deposit(&user, 100_0000000, 100_0000000, 0, 0).unwrap();

    let user_lp = pair.balance(&user);

    let result = pair.withdraw(&user, user_lp + 1, 0, 0);
    assert!(result.is_err());
    assert_eq!(result, Err(AstroSwapError::InsufficientBalance));
    // nothing has moved
    assert_eq!(pair.balance(&user), user_lp);
    assert_eq!(pair.get_reserves(), (100_0000000, 100_0000000));
}

#[test]
fn test_withdraw_below_minimum_fails() {
    let (mut pair, _, _, user, _) = setup_pair_with_liquidity();

    pair.deposit(&user, 100_0000000, 100_0000000, 0, 0).unwrap();

    let user_lp = pair.balance(&user);

    // Set minimum higher than what we'd receive
    let result = pair.withdraw(&user, user_lp, 200_0000000, 0);
    assert!(result.is_err());
    assert_eq!(result, Err(AstroSwapError::MinimumNotMet));
}

// ==================== Swap Tests ====================

#[test]
fn test_swap_success() {
    let (mut pair, token_0_addr, _, user, _) = setup_pair_with_liquidity();

    // Add liquidity first
    pair.deposit(&user, 100_0000000, 100_0000000, 0, 0).unwrap();

    // Swap
    let amount_in = 10_0000000i128;
    let result = pair.swap(&user, &token_0_addr, amount_in, 0).unwrap();

    assert!(result > 0);
    // With fees, should be slightly less than input
    assert!(result < amount_in);
}

#[test]
fn test_swap_respects_slippage() {
    let (mut pair, token_0_addr, _, user, _) = setup_pair_with_liquidity();

    pair.deposit(&user, 100_0000000, 100_0000000, 0, 0).unwrap();

    // Try swap with very high minimum - should fail
    let result = pair.swap(&user, &token_0_addr, 10_0000000, 50_0000000);
    assert!(result.is_err());
    assert_eq!(result, Err(AstroSwapError::SlippageExceeded));
}

#[test]
fn test_swap_zero_amount_fails() {
    let (mut pair, token_0_addr, _, user, _) = setup_pair_with_liquidity();

    pair.deposit(&user, 100_0000000, 100_0000000, 0, 0).unwrap();

    let result = pair.swap(&user, &token_0_addr, 0, 0);
    assert!(result.is_err());
    assert_eq!(result, Err(AstroSwapError::InvalidAmount));
}

#[test]
fn test_swap_invalid_token_fails() {
    let (mut pair, _, _, user, _) = setup_pair_with_liquidity();

    pair.deposit(&user, 100_0000000, 100_0000000, 0, 0).unwrap();

    let invalid_token = contract(99);
    let result = pair.swap(&user, &invalid_token, 10_0000000, 0);
    assert!(result.is_err());
    assert_eq!(result, Err(AstroSwapError::InvalidToken));
}

#[test]
fn test_swap_maintains_k_invariant() {
    let (mut pair, token_0_addr, _, user, _) = setup_pair_with_liquidity();

    pair.deposit(&user, 100_0000000, 100_0000000, 0, 0).unwrap();

    let k_before = pair.k_last();
    let (r0_before, r1_before) = pair.get_reserves();

    pair.swap(&user, &token_0_addr, 10_0000000, 0).unwrap();

    let k_after = pair.k_last();
    let (r0_after, r1_after) = pair.get_reserves();

    // K should increase (due to fees) or stay the same
    assert!(k_after >= k_before);
    assert!(r0_after * r1_after >= r0_before * r1_before);
}

// ==================== Pause Tests ====================

#[test]
fn test_pause_blocks_deposit() {
    let (mut pair, _, _, user, factory) = setup_pair_with_liquidity();

    // Pause the contract
    pair.set_paused(&factory, true).unwrap();
    assert!(pair.is_paused());

    // Deposit should fail
    let result = pair.deposit(&user, 100_0000000, 100_0000000, 0, 0);
    assert!(result.is_err());
    assert_eq!(result, Err(AstroSwapError::ContractPaused));
}

#[test]
fn test_pause_blocks_swap() {
    let (mut pair, token_0_addr, _, user, factory) = setup_pair_with_liquidity();

    // Deposit before pausing
    pair.deposit(&user, 100_0000000, 100_0000000, 0, 0).unwrap();

    // Pause
    pair.set_paused(&factory, true).unwrap();

    // Swap should fail
    let result = pair.swap(&user, &token_0_addr, 10_0000000, 0);
    assert!(result.is_err());
    assert_eq!(result, Err(AstroSwapError::ContractPaused));
}

#[test]
fn test_unpause_restores_functionality() {
    let (mut pair, token_0_addr, _, user, factory) = setup_pair_with_liquidity();

    // Deposit
    pair.deposit(&user, 100_0000000, 100_0000000, 0, 0).unwrap();

    // Pause then unpause
    pair.set_paused(&factory, true).unwrap();
    pair.set_paused(&factory, false).unwrap();
    assert!(!pair.is_paused());

    // Swap should work
    let result = pair.swap(&user, &token_0_addr, 10_0000000, 0).unwrap();
    assert!(result > 0);
}

// ==================== LP Token Tests ====================

#[test]
fn test_lp_token_transfer() {
    let (mut pair, _, _, user, _) = setup_pair_with_liquidity();

    pair.deposit(&user, 100_0000000, 100_0000000, 0, 0).unwrap();

    let user_lp = pair.balance(&user);
    let recipient = account(50);

    pair.transfer(&user, &recipient, user_lp / 2).unwrap();

    assert_eq!(pair.balance(&user), user_lp / 2);
    assert_eq!(pair.balance(&recipient), user_lp / 2);
}

#[test]
fn test_lp_token_approve_and_transfer_from() {
    let (mut pair, _, _, user, _) = setup_pair_with_liquidity();

    pair.deposit(&user, 100_0000000, 100_0000000, 0, 0).unwrap();

    let user_lp = pair.balance(&user);
    let spender = account(51);
    let recipient = account(52);

    pair.approve(&user, &spender, user_lp).unwrap();
    assert_eq!(pair.allowance(&user, &spender), user_lp);

    pair.transfer_from(&spender, &user, &recipient, user_lp).unwrap();

    assert_eq!(pair.balance(&user), 0);
    assert_eq!(pair.balance(&recipient), user_lp);
}

// ==================== View Function Tests ====================

#[test]
fn tests_test_get_amount_out() {
    let (mut pair, token_0_addr, _, user, _) = setup_pair_with_liquidity();

    pair.deposit(&user, 100_0000000, 100_0000000, 0, 0).unwrap();

    let amount_out = pair.get_amount_out(10_0000000, &token_0_addr);

    // Should get some output
    assert!(amount_out.is_ok());
    assert!(amount_out.unwrap() > 0);
}

#[test]
fn test_get_amount_in() {
    let (mut pair, _, token_1_addr, user, _) = setup_pair_with_liquidity();

    pair.deposit(&user, 100_0000000, 100_0000000, 0, 0).unwrap();

    let amount_in = pair.get_amount_in(10_0000000, &token_1_addr);

    // Should need some input
    assert!(amount_in.is_ok());
    assert!(amount_in.unwrap() > 0);
}

#[test]
fn test_get_info() {
    let (mut pair, token_0_addr, token_1_addr, user, _) = setup_pair_with_liquidity();

    pair.deposit(&user, 100_0000000, 100_0000000, 0, 0).unwrap();

    let info = pair.get_info();

    assert_eq!(info.token_a, token_0_addr);
    assert_eq!(info.token_b, token_1_addr);
    assert_eq!(info.reserve_a, 100_0000000);
    assert_eq!(info.reserve_b, 100_0000000);
    assert!(info.total_shares > 0);
    assert_eq!(info.fee_bps, 30);
}

// ==================== Sync and Skim Tests ====================

#[test]
fn test_sync_updates_reserves() {
    let (mut pair, _, _, user, factory) = setup_pair_with_liquidity();

    pair.deposit(&user, 100_0000000, 100_0000000, 0, 0).unwrap();

    // Sync should not change anything if balances match reserves
    pair.sync(&factory, 100_0000000, 100_0000000).unwrap();

    let (reserve_0, reserve_1) = pair.get_reserves();
    assert_eq!(reserve_0, 100_0000000);
    assert_eq!(reserve_1, 100_0000000);
}

// ==================== Edge Cases ====================

#[test]
fn test_large_swap_high_price_impact() {
    let (mut pair, token_0_addr, _, user, _) = setup_pair_with_liquidity();

    // Small pool
    pair.deposit(&user, 100_0000000, 100_0000000, 0, 0).unwrap();

    // Large swap (50% of pool)
    let amount_in = 50_0000000i128;
    let result = pair.swap(&user, &token_0_addr, amount_in, 0).unwrap();

    // Should get significantly less than 50 due to price impact
    assert!(result < 50_0000000);
    // But should still get something reasonable
    assert!(result > 25_0000000);
}

#[test]
fn test_multiple_swaps_in_same_direction() {
    let (mut pair, token_0_addr, _, user, _) = setup_pair_with_liquidity();

    pair.deposit(&user, 1000_0000000, 1000_0000000, 0, 0).unwrap();

    // Multiple small swaps
    let mut total_out = 0i128;
    let mut last_out = i128::MAX;
    for _ in 0..5 {
        let out = pair.swap(&user, &token_0_addr, 10_0000000, 0).unwrap();
        // each swap gets a worse rate as the price moves
        assert!(out < last_out);
        last_out = out;
        total_out += out;
    }

    let single_swap_out = pair.get_amount_out(50_0000000, &token_0_addr).unwrap();

    assert!(total_out > 0);
    assert!(single_swap_out > 0);
}

#[test]
fn test_minimum_liquidity_locked() {
    let (mut pair, _, _, user, _) = setup_pair_with_liquidity();

    // First deposit
    let result = pair.deposit(&user, 100_0000000, 100_0000000, 0, 0).unwrap();

    // Total supply should be more than user's balance (MINIMUM_LIQUIDITY locked)
    let total_supply = pair.total_supply();
    let user_balance = pair.balance(&user);

    assert!(total_supply > user_balance);
    // Difference should be MINIMUM_LIQUIDITY (1000)
    assert_eq!(total_supply - user_balance, 1000);
    // sqrt(100_0000000 * 100_0000000) - 1000
    assert_eq!(result.2, 100_0000000 - 1000);
    assert_eq!(user_balance, 100_0000000 - 1000);
}

#[test]
fn test_minimum_liquidity_lock() {
    let (mut pair, _, _, user, _) = setup_pair_with_liquidity();

    // Add initial liquidity
    let (_, _, shares) = pair.deposit(&user, 1_000_0000000i128, 2_000_0000000i128, 0, 0).unwrap();

    // Check total supply includes locked minimum liquidity
    let total_supply = pair.total_supply();

    let expected_locked = 1000i128;

    assert_eq!(total_supply, shares + expected_locked);

    // Minimum liquidity should be locked in the pair's own account
    let locked = pair.balance(&pair.address());
    assert_eq!(locked, expected_locked);
}
