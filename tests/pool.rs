use amm::pool::{is_change_k, AMMContract, PoolError};

fn s(x: &str) -> String {
    x.to_string()
}

fn fresh() -> AMMContract {
    AMMContract::new(false, s("gov"), s("token_a"), s("token_b")).unwrap()
}

fn ready_pool() -> AMMContract {
    let mut c = fresh();
    c.cb_init(&s("amm"), &s("amm"), &s("token_a"), s("Token A"), 18).unwrap();
    c.cb_init(&s("amm"), &s("amm"), &s("token_b"), s("Token B"), 6).unwrap();
    c
}

fn priced_pool() -> AMMContract {
    let mut c = ready_pool();
    c.ft_on_transfer(&s("token_a"), &s("amm"), &s("gov"), 1000, "CHANGE_K").unwrap();
    c.ft_on_transfer(&s("token_b"), &s("amm"), &s("gov"), 1000, "CHANGE_K").unwrap();
    c
}

fn state(c: &AMMContract) -> (u128, u128, String, bool, String, String) {
    (c.token_a.reserve, c.token_b.reserve, c.k.clone(), c.ready, c.token_a.name.clone(), c.token_b.name.clone())
}

#[test]
fn new_pool_is_empty() {
    let c = fresh();
    assert_eq!(c.gov, "gov");
    assert_eq!(c.token_a.account_id, "token_a");
    assert_eq!(c.token_b.account_id, "token_b");
    assert_eq!(c.k, "0");
    assert!(!c.ready);
    assert_eq!(c.token_a.reserve, 0);
    assert_eq!(c.token_b.name, "");
}

#[test]
fn new_refuses_existing_state() {
    let r = AMMContract::new(true, s("gov"), s("token_a"), s("token_b"));
    assert_eq!(r.unwrap_err(), PoolError::AlreadyInitialized);
}

#[test]
fn ready_after_both_completions_a_first() {
    let mut c = fresh();
    c.cb_init(&s("amm"), &s("amm"), &s("token_a"), s("Token A"), 18).unwrap();
    assert!(!c.ready);
    c.cb_init(&s("amm"), &s("amm"), &s("token_b"), s("Token B"), 6).unwrap();
    assert!(c.ready);
    assert_eq!(c.token_a.name, "Token A");
    assert_eq!(c.token_a.decimals, 18);
    assert_eq!(c.token_b.decimals, 6);
}

#[test]
fn ready_after_both_completions_b_first() {
    let mut c = fresh();
    c.cb_init(&s("amm"), &s("amm"), &s("token_b"), s("Token B"), 6).unwrap();
    assert!(!c.ready);
    c.cb_init(&s("amm"), &s("amm"), &s("token_a"), s("Token A"), 18).unwrap();
    assert!(c.ready);
    assert_eq!(state(&c), state(&ready_pool()));
}

#[test]
fn repeated_completion_is_harmless() {
    let mut c = ready_pool();
    c.cb_init(&s("amm"), &s("amm"), &s("token_a"), s("Token A"), 18).unwrap();
    assert_eq!(state(&c), state(&ready_pool()));
}

#[test]
fn completion_from_outside_is_refused() {
    let mut c = fresh();
    let r = c.cb_init(&s("mallory"), &s("amm"), &s("token_a"), s("X"), 1);
    assert_eq!(r, Err(PoolError::Unauthorized));
    assert_eq!(state(&c), state(&fresh()));
}

#[test]
fn completion_for_unknown_asset_is_refused() {
    let mut c = fresh();
    let r = c.cb_init(&s("amm"), &s("amm"), &s("token_c"), s("X"), 1);
    assert_eq!(r, Err(PoolError::UnknownAsset));
    assert_eq!(state(&c), state(&fresh()));
}

#[test]
fn wallets_only_for_governance() {
    let c = fresh();
    assert_eq!(c.create_wallet(&s("gov")), Ok((s("token_a"), s("token_b"))));
    assert_eq!(c.create_wallet(&s("bob")), Err(PoolError::Unauthorized));
}

#[test]
fn governance_injection_sets_invariant() {
    let mut c = ready_pool();
    let out = c.ft_on_transfer(&s("token_a"), &s("amm"), &s("gov"), 1000, "CHANGE_K").unwrap();
    assert_eq!(out.refund, 0);
    assert!(out.payout.is_none());
    assert_eq!(c.token_a.reserve, 1000);
    assert_eq!(c.k, "0");
    c.ft_on_transfer(&s("token_b"), &s("amm"), &s("gov"), 1000, "CHANGE_K").unwrap();
    assert_eq!(c.token_b.reserve, 1000);
    assert_eq!(c.k, "1000000");
}

#[test]
fn injection_of_largest_reserves_is_exact() {
    let mut c = ready_pool();
    c.ft_on_transfer(&s("token_a"), &s("amm"), &s("gov"), u128::MAX, "CHANGE_K").unwrap();
    c.ft_on_transfer(&s("token_b"), &s("amm"), &s("gov"), u128::MAX, "CHANGE_K").unwrap();
    assert_eq!(
        c.k,
        "115792089237316195423570985008687907852589419931798687112530834793049593217025"
    );
}

#[test]
fn swap_scenario_from_thousand_each() {
    let mut c = priced_pool();
    assert_eq!(c.k, "1000000");
    let out = c.ft_on_transfer(&s("token_a"), &s("amm"), &s("alice"), 100, "").unwrap();
    assert_eq!(out.refund, 0);
    let p = out.payout.unwrap();
    assert_eq!(p.token, "token_b");
    assert_eq!(p.receiver, "alice");
    assert_eq!(p.amount, 91);
    assert_eq!(c.token_a.reserve, 1100);
    assert_eq!(c.token_b.reserve, 909);
    assert_eq!(c.k, "1000000");
}

#[test]
fn swap_in_the_other_direction() {
    let mut c = priced_pool();
    let out = c.ft_on_transfer(&s("token_b"), &s("amm"), &s("bob"), 250, "swap").unwrap();
    let p = out.payout.unwrap();
    assert_eq!(p.token, "token_a");
    assert_eq!(p.receiver, "bob");
    assert_eq!(p.amount, 200);
    assert_eq!(c.token_b.reserve, 1250);
    assert_eq!(c.token_a.reserve, 800);
    assert!(c.token_a.reserve * c.token_b.reserve <= 1_000_000);
}

#[test]
fn swap_rounding_favours_the_pool() {
    let mut c = priced_pool();
    c.ft_on_transfer(&s("token_a"), &s("amm"), &s("alice"), 7, "").unwrap();
    c.ft_on_transfer(&s("token_b"), &s("amm"), &s("alice"), 13, "").unwrap();
    assert!(c.token_a.reserve * c.token_b.reserve <= 1_000_000);
    assert_eq!(c.k, "1000000");
}

#[test]
fn swap_with_zero_invariant_is_refused() {
    let mut c = ready_pool();
    c.ft_on_transfer(&s("token_a"), &s("amm"), &s("gov"), 1000, "CHANGE_K").unwrap();
    let before = state(&c);
    let r = c.ft_on_transfer(&s("token_a"), &s("amm"), &s("alice"), 100, "");
    assert_eq!(r.unwrap_err(), PoolError::ZeroInvariant);
    assert_eq!(state(&c), before);
}

#[test]
fn deposit_from_unknown_service_is_refused() {
    let mut c = priced_pool();
    let before = state(&c);
    let r = c.ft_on_transfer(&s("token_c"), &s("amm"), &s("alice"), 100, "");
    assert_eq!(r.unwrap_err(), PoolError::UnknownCaller);
    let r = c.ft_on_transfer(&s("token_c"), &s("amm"), &s("gov"), 100, "CHANGE_K");
    assert_eq!(r.unwrap_err(), PoolError::UnknownCaller);
    assert_eq!(state(&c), before);
}

#[test]
fn injection_by_non_governance_is_refused() {
    let mut c = priced_pool();
    let before = state(&c);
    let r = c.ft_on_transfer(&s("token_a"), &s("amm"), &s("alice"), 100, "CHANGE_K");
    assert_eq!(r.unwrap_err(), PoolError::Unauthorized);
    assert_eq!(state(&c), before);
}

#[test]
fn deposit_from_the_pool_itself_is_refused() {
    let mut c = priced_pool();
    let r = c.ft_on_transfer(&s("token_a"), &s("amm"), &s("amm"), 100, "");
    assert_eq!(r.unwrap_err(), PoolError::SelfDeposit);
}

#[test]
fn corrupted_invariant_is_refused() {
    let mut c = priced_pool();
    c.k = s("12x");
    let r = c.ft_on_transfer(&s("token_a"), &s("amm"), &s("alice"), 100, "");
    assert_eq!(r.unwrap_err(), PoolError::InvalidInvariant);
    assert_eq!(c.token_a.reserve, 1000);
}

#[test]
fn deposit_before_ready_is_refused() {
    let mut c = fresh();
    let r = c.ft_on_transfer(&s("token_a"), &s("amm"), &s("gov"), 100, "CHANGE_K");
    assert_eq!(r.unwrap_err(), PoolError::NotReady);
    assert_eq!(state(&c), state(&fresh()));
}

#[test]
fn reserve_overflow_is_refused() {
    let mut c = ready_pool();
    c.ft_on_transfer(&s("token_a"), &s("amm"), &s("gov"), u128::MAX, "CHANGE_K").unwrap();
    let r = c.ft_on_transfer(&s("token_a"), &s("amm"), &s("gov"), 1, "CHANGE_K");
    assert_eq!(r.unwrap_err(), PoolError::ReserveOverflow);
    c.ft_on_transfer(&s("token_b"), &s("amm"), &s("gov"), 1, "CHANGE_K").unwrap();
    let r = c.ft_on_transfer(&s("token_a"), &s("amm"), &s("alice"), 1, "");
    assert_eq!(r.unwrap_err(), PoolError::ReserveOverflow);
    assert_eq!(c.token_a.reserve, u128::MAX);
}

#[test]
fn insufficient_liquidity_is_refused() {
    let mut c = priced_pool();
    c.token_b.reserve = 10;
    let r = c.ft_on_transfer(&s("token_a"), &s("amm"), &s("alice"), 100, "");
    assert_eq!(r.unwrap_err(), PoolError::InsufficientLiquidity);
    assert_eq!(c.token_a.reserve, 1000);
    assert_eq!(c.token_b.reserve, 10);
}

#[test]
fn change_k_tag_is_exact() {
    assert!(is_change_k("CHANGE_K"));
    assert!(!is_change_k("CHANGE_k"));
    assert!(!is_change_k("CHANGE_K "));
    assert!(!is_change_k(""));
}

#[test]
fn metadata_reports_state() {
    let c = priced_pool();
    let m = c.amm_metadata();
    assert_eq!(m.ratio, "1000000");
    assert_eq!(m.token_a.name, "Token A");
    assert_eq!(m.token_b.reserve, 1000);
    let t = c.token_a.snapshot();
    assert_eq!(t.account_id, "token_a");
}
