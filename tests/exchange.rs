use tfn_dex::contract::TOKEN_ISSUE_COST;
use tfn_dex::{DexError, IssueCallbackEffect, PairState, State, TFNDEXContract};

fn b(s: &str) -> Vec<u8> {
    s.as_bytes().to_vec()
}

fn owner() -> Vec<u8> {
    b("owner")
}

fn launchpad() -> Vec<u8> {
    b("launchpad")
}

/// An active exchange with base token USDC.
fn ready() -> TFNDEXContract {
    let mut c = TFNDEXContract::init(owner());
    c.config.set_launchpad_address(&launchpad(), &b("USDC")).unwrap();
    c
}

/// An active exchange with pair 0 of TKN and USDC, reserves as given.
fn with_pair(liquidity_token: u64, liquidity_base: u64) -> TFNDEXContract {
    let mut c = ready();
    let req = c.create_pair(&owner(), &b("USDC"), &b("TKN"), TOKEN_ISSUE_COST).unwrap();
    c.lp_token_issue_callback(req.request_id, Some(b("TKN-USDC-LP"))).unwrap();
    c.config.pairs[0].liquidity_token = liquidity_token;
    c.config.pairs[0].liquidity_base = liquidity_base;
    c
}

fn active_pair(liquidity_token: u64, liquidity_base: u64) -> TFNDEXContract {
    let mut c = with_pair(liquidity_token, liquidity_base);
    c.set_pair_active(&owner(), 0).unwrap();
    c
}

#[test]
fn new_exchange_is_inactive() {
    let c = TFNDEXContract::init(owner());
    assert_eq!(c.config.state, State::Inactive);
    assert!(c.config.get_pairs().is_empty());
    assert_eq!(c.config.last_pair_id(), 0);
}

#[test]
fn activation_needs_launchpad_and_base_token() {
    let mut c = TFNDEXContract::init(owner());
    assert_eq!(c.config.set_state_active(&owner()), Err(DexError::NotReady));
    assert_eq!(c.config.set_state_active(&b("someone")), Err(DexError::Unauthorized));
    c.config.set_launchpad_address(&launchpad(), &b("USDC")).unwrap();
    assert_eq!(c.config.state, State::Active);
    assert_eq!(c.config.base_tokens, vec![b("USDC")]);
    assert_eq!(c.config.launchpad_address, Some(launchpad()));
    assert_eq!(c.config.set_state_inactive(&owner()), Ok(()));
    assert_eq!(c.config.state, State::Inactive);
    assert_eq!(c.config.set_state_active(&owner()), Ok(()));
    assert_eq!(c.config.state, State::Active);
}

#[test]
fn launchpad_address_is_set_once() {
    let mut c = ready();
    assert_eq!(
        c.config.set_launchpad_address(&b("other"), &b("WEGLD")),
        Err(DexError::LaunchpadAddressAlreadySet)
    );
    assert_eq!(c.config.base_tokens, vec![b("USDC")]);
}

#[test]
fn fee_rates_stay_below_max_percent() {
    let mut c = ready();
    assert_eq!(c.config.set_lp_fee(&owner(), 20), Ok(()));
    assert_eq!(c.config.set_owner_fee(&owner(), 10), Ok(()));
    assert_eq!(c.config.set_lp_fee(&owner(), 9990), Err(DexError::FeeTooHigh));
    assert_eq!(c.config.lp_fee, 20);
    assert_eq!(c.config.set_owner_fee(&owner(), 9980), Err(DexError::FeeTooHigh));
    assert_eq!(c.config.owner_fee, 10);
    assert_eq!(c.config.set_owner_fee(&owner(), 9979), Ok(()));
    assert_eq!(c.config.owner_fee, 9979);
    assert_eq!(c.config.set_lp_fee(&owner(), u64::MAX), Err(DexError::FeeTooHigh));
    assert_eq!(c.config.set_lp_fee(&launchpad(), 1), Err(DexError::Unauthorized));
    assert_eq!(c.config.lp_fee, 20);
}

#[test]
fn create_pair_scenario() {
    let mut c = ready();
    let req = c.create_pair(&owner(), &b("USDC"), &b("TKN"), TOKEN_ISSUE_COST).unwrap();
    assert_eq!(req.lp_name, b("TFNTKNUSDCLP"));
    assert_eq!(req.lp_ticker, b("TKNUSDC"));
    assert_eq!(req.issue_cost, TOKEN_ISSUE_COST);
    assert_eq!(req.num_decimals, 18);
    assert!(c.config.get_pairs().is_empty());
    let effect = c.lp_token_issue_callback(req.request_id, Some(b("TKN-USDC-LP"))).unwrap();
    assert_eq!(effect, IssueCallbackEffect::PairCreated(0));
    let pair = c.config.get_pair(0).unwrap();
    assert_eq!(pair.id, 0);
    assert_eq!(pair.state, PairState::ActiveNoSwap);
    assert_eq!(pair.token, b("TKN"));
    assert_eq!(pair.base_token, b("USDC"));
    assert_eq!(pair.lp_token, b("TKN-USDC-LP"));
    assert_eq!((pair.liquidity_token, pair.liquidity_base, pair.lp_supply), (0, 0, 0));
    assert!(c.pending.is_empty());
    assert_eq!(c.config.last_pair_id(), 1);
}

#[test]
fn create_pair_by_launchpad() {
    let mut c = ready();
    assert!(c.create_pair(&launchpad(), &b("USDC"), &b("TKN"), TOKEN_ISSUE_COST).is_ok());
}

#[test]
fn create_pair_errors() {
    let mut c = ready();
    assert_eq!(
        c.create_pair(&b("someone"), &b("USDC"), &b("TKN"), TOKEN_ISSUE_COST),
        Err(DexError::Unauthorized)
    );
    assert_eq!(
        c.create_pair(&owner(), &b("WEGLD"), &b("TKN"), TOKEN_ISSUE_COST),
        Err(DexError::WrongBaseToken)
    );
    assert_eq!(
        c.create_pair(&owner(), &b("USDC"), &b("USDC"), TOKEN_ISSUE_COST),
        Err(DexError::WrongBaseToken)
    );
    assert_eq!(
        c.create_pair(&owner(), &b("USDC"), &b("TKN"), TOKEN_ISSUE_COST - 1),
        Err(DexError::WrongIssueCost)
    );
    c.config.set_state_inactive(&owner()).unwrap();
    assert_eq!(
        c.create_pair(&owner(), &b("USDC"), &b("TKN"), TOKEN_ISSUE_COST),
        Err(DexError::NotActive)
    );
    assert!(c.pending.is_empty());
}

#[test]
fn create_pair_refuses_existing_or_pending_pair() {
    let mut c = ready();
    c.add_base_token(&owner(), &b("TKN")).unwrap();
    c.create_pair(&owner(), &b("USDC"), &b("TKN"), TOKEN_ISSUE_COST).unwrap();
    assert_eq!(
        c.create_pair(&owner(), &b("TKN"), &b("USDC"), TOKEN_ISSUE_COST),
        Err(DexError::PairExists)
    );
    let mut d = with_pair(0, 0);
    assert_eq!(
        d.create_pair(&owner(), &b("USDC"), &b("TKN"), TOKEN_ISSUE_COST),
        Err(DexError::PairExists)
    );
}

#[test]
fn failed_issue_refunds_deposit() {
    let mut c = ready();
    let req = c.create_pair(&launchpad(), &b("USDC"), &b("TKN"), TOKEN_ISSUE_COST).unwrap();
    let effect = c.lp_token_issue_callback(req.request_id, None).unwrap();
    assert_eq!(
        effect,
        IssueCallbackEffect::Refund { to: launchpad(), amount: TOKEN_ISSUE_COST }
    );
    assert!(c.config.get_pairs().is_empty());
    assert_eq!(c.config.last_pair_id(), 0);
    assert!(c.pending.is_empty());
    // the pair can be asked for again
    let again = c.create_pair(&owner(), &b("USDC"), &b("TKN"), TOKEN_ISSUE_COST).unwrap();
    c.lp_token_issue_callback(again.request_id, Some(b("LP-abcdef"))).unwrap();
    assert_eq!(c.config.get_pair(0).unwrap().id, 0);
}

#[test]
fn callback_for_unknown_request() {
    let mut c = ready();
    assert_eq!(
        c.lp_token_issue_callback(7, Some(b("LP-abcdef"))),
        Err(DexError::UnknownIssueRequest)
    );
    let req = c.create_pair(&owner(), &b("USDC"), &b("TKN"), TOKEN_ISSUE_COST).unwrap();
    c.lp_token_issue_callback(req.request_id, None).unwrap();
    assert_eq!(
        c.lp_token_issue_callback(req.request_id, None),
        Err(DexError::UnknownIssueRequest)
    );
}

#[test]
fn new_pair_cannot_be_activated_without_liquidity() {
    let mut c = with_pair(0, 0);
    assert_eq!(c.set_pair_active(&owner(), 0), Err(DexError::NoLiquidity));
    assert_eq!(c.config.get_pair(0).unwrap().state, PairState::ActiveNoSwap);
    c.config.pairs[0].liquidity_token = 1000;
    assert_eq!(c.set_pair_active(&owner(), 0), Err(DexError::NoLiquidity));
    c.config.pairs[0].liquidity_base = 1000;
    assert_eq!(c.set_pair_active(&owner(), 0), Ok(()));
    assert_eq!(c.config.get_pair(0).unwrap().state, PairState::Active);
}

#[test]
fn pair_state_transitions() {
    let mut c = active_pair(1000, 1000);
    assert_eq!(c.set_pair_active_no_swap(&launchpad(), 0), Ok(()));
    assert_eq!(c.config.get_pair(0).unwrap().state, PairState::ActiveNoSwap);
    assert_eq!(c.set_pair_inactive(&owner(), 0), Ok(()));
    assert_eq!(c.config.get_pair(0).unwrap().state, PairState::Inactive);
    assert_eq!(c.set_pair_inactive(&owner(), 1), Err(DexError::PairNotFound));
    assert_eq!(c.set_pair_active(&owner(), 5), Err(DexError::PairNotFound));
    assert_eq!(c.set_pair_active(&b("someone"), 0), Err(DexError::Unauthorized));
    c.config.set_state_inactive(&owner()).unwrap();
    assert_eq!(c.set_pair_active(&owner(), 0), Err(DexError::NotActive));
}

#[test]
fn inactive_pair_without_liquidity() {
    let mut c = with_pair(0, 0);
    assert_eq!(c.set_pair_active_no_swap(&owner(), 0), Err(DexError::NoLiquidity));
    assert_eq!(c.set_pair_inactive(&owner(), 0), Ok(()));
    assert_eq!(c.config.get_pair(0).unwrap().state, PairState::Inactive);
}

#[test]
fn pair_lookups() {
    let c = with_pair(0, 0);
    assert_eq!(c.config.get_pair_by_tickers(&b("USDC"), &b("TKN")).unwrap().id, 0);
    assert_eq!(c.config.get_pair_by_tickers(&b("TKN"), &b("USDC")).unwrap().id, 0);
    assert!(c.config.get_pair_by_tickers(&b("TKN"), &b("WEGLD")).is_none());
    assert_eq!(c.config.get_pair_by_lp_token(&b("TKN-USDC-LP")).unwrap().token, b("TKN"));
    assert!(c.config.get_pair_by_lp_token(&b("OTHER-LP")).is_none());
    assert_eq!(c.config.get_pairs().len(), 1);
    assert!(c.config.get_pair(1).is_none());
}

#[test]
fn base_token_add_and_remove() {
    let mut c = ready();
    assert_eq!(c.add_base_token(&owner(), &b("WEGLD")), Ok(()));
    assert_eq!(c.add_base_token(&owner(), &b("WEGLD")), Err(DexError::BaseTokenExists));
    assert_eq!(c.add_base_token(&launchpad(), &b("X")), Err(DexError::Unauthorized));
    assert_eq!(c.remove_base_token(&owner(), &b("WEGLD")), Ok(()));
    assert_eq!(c.config.base_tokens, vec![b("USDC")]);
    assert_eq!(c.remove_base_token(&owner(), &b("WEGLD")), Err(DexError::WrongBaseToken));
    c.config.set_state_inactive(&owner()).unwrap();
    assert_eq!(c.add_base_token(&owner(), &b("WEGLD")), Err(DexError::NotActive));
    assert_eq!(c.remove_base_token(&owner(), &b("USDC")), Err(DexError::NotActive));
}

#[test]
fn base_token_in_use_cannot_be_removed() {
    let mut c = with_pair(0, 0);
    assert_eq!(c.remove_base_token(&owner(), &b("USDC")), Err(DexError::BaseTokenInUse));
    c.set_pair_inactive(&owner(), 0).unwrap();
    assert_eq!(c.remove_base_token(&owner(), &b("USDC")), Err(DexError::BaseTokenInUse));
    c.add_base_token(&owner(), &b("WEGLD")).unwrap();
    assert_eq!(c.remove_base_token(&owner(), &b("WEGLD")), Ok(()));
    assert_eq!(c.config.base_tokens, vec![b("USDC")]);
}

#[test]
fn swap_fixed_input_scenario() {
    let mut c = active_pair(1000, 1000);
    c.config.set_lp_fee(&owner(), 20).unwrap();
    c.config.set_owner_fee(&owner(), 10).unwrap();
    assert_eq!(
        c.swap_fixed_input(&b("TKN"), 100, &b("USDC"), 91),
        Err(DexError::InsufficientOutputAmount)
    );
    assert_eq!(c.swap_fixed_input(&b("TKN"), 100, &b("USDC"), 90), Ok(90));
    let pair = c.config.get_pair(0).unwrap();
    assert_eq!((pair.liquidity_token, pair.liquidity_base), (1100, 910));
}

#[test]
fn swap_fixed_input_accrues_owner_fee() {
    let mut c = active_pair(100000, 100000);
    c.config.set_lp_fee(&owner(), 20).unwrap();
    c.config.set_owner_fee(&owner(), 10).unwrap();
    assert_eq!(c.swap_fixed_input(&b("USDC"), 10000, &b("TKN"), 0), Ok(9066));
    let pair = c.config.get_pair(0).unwrap();
    assert_eq!((pair.liquidity_token, pair.liquidity_base), (90934, 109990));
    assert_eq!(c.config.cummulated_fees, vec![(b("USDC"), 10)]);
    assert_eq!(c.swap_fixed_input(&b("TKN"), 10000, &b("USDC"), 0).map(|x| x > 0), Ok(true));
    assert_eq!(c.config.cummulated_fees.len(), 1);
}

#[test]
fn swap_fixed_output_uses_needed_input() {
    let mut c = active_pair(100000, 100000);
    c.config.set_lp_fee(&owner(), 20).unwrap();
    c.config.set_owner_fee(&owner(), 10).unwrap();
    assert_eq!(
        c.swap_fixed_output(&b("USDC"), 9999, &b("TKN"), 9066),
        Err(DexError::InsufficientInputAmount)
    );
    assert_eq!(c.swap_fixed_output(&b("USDC"), 20000, &b("TKN"), 9066), Ok(10000));
    let pair = c.config.get_pair(0).unwrap();
    assert_eq!((pair.liquidity_token, pair.liquidity_base), (90934, 109990));
    assert_eq!(c.config.cummulated_fees, vec![(b("USDC"), 10)]);
    assert_eq!(
        c.swap_fixed_output(&b("USDC"), 1_000_000, &b("TKN"), 90934),
        Err(DexError::NotEnoughReserve)
    );
}

#[test]
fn swap_fixed_output_fee_on_output_token() {
    let mut c = active_pair(100000, 100000);
    c.config.set_lp_fee(&owner(), 20).unwrap();
    c.config.set_owner_fee(&owner(), 10).unwrap();
    assert_eq!(c.swap_fixed_output(&b("TKN"), 20000, &b("USDC"), 9063), Ok(9999));
    let pair = c.config.get_pair(0).unwrap();
    assert_eq!((pair.liquidity_token, pair.liquidity_base), (109999, 90928));
    assert_eq!(c.config.cummulated_fees, vec![(b("USDC"), 9)]);
}

#[test]
fn swap_refusals() {
    let mut c = with_pair(1000, 1000);
    assert_eq!(
        c.swap_fixed_input(&b("TKN"), 100, &b("USDC"), 0),
        Err(DexError::PairNotActive)
    );
    assert_eq!(
        c.swap_fixed_input(&b("TKN"), 100, &b("WEGLD"), 0),
        Err(DexError::PairNotFound)
    );
    c.config.set_state_inactive(&owner()).unwrap();
    assert_eq!(
        c.swap_fixed_output(&b("TKN"), 100, &b("USDC"), 1),
        Err(DexError::NotActive)
    );
}

#[test]
fn withdraw_fees_scenario() {
    let mut c = ready();
    c.config.accrue_fee(&b("USDC"), 50).unwrap();
    c.config.accrue_fee(&b("TKN"), 30).unwrap();
    assert_eq!(c.config.withdraw_fees(&launchpad()), Err(DexError::Unauthorized));
    let payments = c.config.withdraw_fees(&owner()).unwrap();
    assert_eq!(payments, vec![(b("USDC"), 50), (b("TKN"), 30)]);
    assert!(c.config.cummulated_fees.is_empty());
    assert_eq!(c.config.withdraw_fees(&owner()), Ok(vec![]));
}

#[test]
fn accrued_fees_add_up() {
    let mut c = ready();
    c.config.accrue_fee(&b("USDC"), 50).unwrap();
    c.config.accrue_fee(&b("USDC"), 5).unwrap();
    assert_eq!(c.config.cummulated_fees, vec![(b("USDC"), 55)]);
    assert_eq!(c.config.accrue_fee(&b("USDC"), u64::MAX), Err(DexError::AmountOverflow));
    assert_eq!(c.config.cummulated_fees, vec![(b("USDC"), 55)]);
}
