use tfn_dex::helpers::HelpersModule;
use tfn_dex::swap::{SwapModule, SwapOutcome};
use tfn_dex::{DexError, TFNDEXContract};

fn dex() -> TFNDEXContract {
    TFNDEXContract::init(b"owner".to_vec())
}

#[test]
fn quote_converts_at_reserve_ratio() {
    assert_eq!(dex().quote(100, 1000, 2000), 200);
    assert_eq!(dex().quote(7, 3, 2), 4);
}

#[test]
fn amount_out_no_fee_rounds_down() {
    assert_eq!(dex().get_amount_out_no_fee(100, 1000, 1000), 90);
    assert_eq!(dex().get_amount_out_no_fee(0, 1000, 1000), 0);
}

#[test]
fn amount_out_never_drains_pool() {
    assert!(dex().get_amount_out_no_fee(u64::MAX, 1, 1000) < 1000);
    assert_eq!(dex().get_amount_out_no_fee(u64::MAX, 1, 1000), 999);
}

#[test]
fn amount_out_is_monotone() {
    let mut last = 0;
    for x in 1..500u64 {
        let out = dex().get_amount_out_no_fee(x, 1000, 1000);
        assert!(out >= last);
        last = out;
    }
}

#[test]
fn amount_in_no_fee_adds_one() {
    assert_eq!(dex().get_amount_in_no_fee(90, 1000, 1000), 99);
    assert_eq!(dex().get_amount_in_no_fee(0, 1000, 1000), 1);
    assert_eq!(dex().get_amount_in_no_fee(1, u64::MAX, 2), (u64::MAX as u128) + 1);
}

#[test]
fn round_trip_does_not_profit_trader() {
    // 99 is the least input that buys 90
    let out = dex().get_amount_out_no_fee(99, 1000, 1000) as u64;
    assert_eq!(out, 90);
    assert!(dex().get_amount_in_no_fee(out, 1000, 1000) >= 99);
}

#[test]
fn round_trip_past_saturation_can_ask_less() {
    // an input of 100 buys no more than 99 does
    let out = dex().get_amount_out_no_fee(100, 10, 10) as u64;
    assert_eq!(out, 9);
    assert_eq!(dex().get_amount_in_no_fee(out, 10, 10), 91);
}

#[test]
fn fixed_output_price_covers_output() {
    for out in 0..1000u64 {
        let amount_in = dex().get_amount_in_no_fee(out, 1000, 1000) as u64;
        assert!(dex().get_amount_out_no_fee(amount_in, 1000, 1000) >= out);
    }
}

#[test]
fn fee_split_on_input() {
    assert_eq!(dex().get_fee_amounts(10000, 20, 10, true), (20, 10, 30));
    assert_eq!(dex().get_fee_amounts(100, 20, 10, true), (0, 0, 0));
}

#[test]
fn fee_split_on_output() {
    assert_eq!(dex().get_fee_amounts(9970, 20, 10, false), (20, 10, 30));
    assert_eq!(dex().get_fee_amounts(9970, 0, 0, false), (0, 0, 0));
}

#[test]
fn swap_fixed_input_small_fee_rounds_to_zero() {
    let o = dex().do_swap_fixed_input(100, 1000, 1000, 20, 10, true).unwrap();
    assert_eq!(
        o,
        SwapOutcome { amount: 90, new_liquidity_in: 1100, new_liquidity_out: 910, owner_fee: 0 }
    );
}

#[test]
fn swap_fixed_input_fee_on_input() {
    let o = dex().do_swap_fixed_input(10000, 100000, 100000, 20, 10, true).unwrap();
    assert_eq!(
        o,
        SwapOutcome { amount: 9066, new_liquidity_in: 109990, new_liquidity_out: 90934, owner_fee: 10 }
    );
}

#[test]
fn swap_fixed_input_fee_on_output() {
    let o = dex().do_swap_fixed_input(10000, 100000, 100000, 20, 10, false).unwrap();
    assert_eq!(
        o,
        SwapOutcome { amount: 9063, new_liquidity_in: 110000, new_liquidity_out: 90928, owner_fee: 9 }
    );
}

#[test]
fn swap_fixed_input_overflow() {
    assert_eq!(
        dex().do_swap_fixed_input(u64::MAX, u64::MAX, 100, 0, 0, false),
        Err(DexError::AmountOverflow)
    );
}

#[test]
fn swap_fixed_output_fee_on_input() {
    let o = dex().do_swap_fixed_output(9066, 100000, 100000, 20, 10, true).unwrap();
    assert_eq!(
        o,
        SwapOutcome { amount: 10000, new_liquidity_in: 109990, new_liquidity_out: 90934, owner_fee: 10 }
    );
}

#[test]
fn swap_fixed_output_fee_on_output() {
    let o = dex().do_swap_fixed_output(9063, 100000, 100000, 20, 10, false).unwrap();
    assert_eq!(
        o,
        SwapOutcome { amount: 9999, new_liquidity_in: 109999, new_liquidity_out: 90928, owner_fee: 9 }
    );
}

#[test]
fn swap_fixed_output_needs_reserve() {
    assert_eq!(
        dex().do_swap_fixed_output(100000, 100000, 100000, 20, 10, true),
        Err(DexError::NotEnoughReserve)
    );
    assert_eq!(
        dex().do_swap_fixed_output(99999, 100000, 100000, 20, 10, false),
        Err(DexError::NotEnoughReserve)
    );
}

#[test]
fn swap_fixed_output_overflow() {
    assert_eq!(
        dex().do_swap_fixed_output(1, u64::MAX, 2, 0, 0, true),
        Err(DexError::AmountOverflow)
    );
}
