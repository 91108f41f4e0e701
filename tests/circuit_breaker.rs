use omnipool_core::arith::{ArithmeticError, Percent};
use omnipool_core::circuit_breaker::{Error, LiquidityRange, Pallet};

#[test]
fn range_checks_report_which_side_was_crossed() {
    let range = LiquidityRange { min_limit: 90, max_limit: 110 };
    assert_eq!(range.check_min_limit(90), Ok(()));
    assert_eq!(range.check_min_limit(89), Err(Error::MinTradeVolumePerBlockReached));
    assert_eq!(range.check_max_limit(110), Ok(()));
    assert_eq!(range.check_max_limit(111), Err(Error::MaxTradeVolumePerBlockReached));
    assert_eq!(range.check_limits(100), Ok(()));
    assert_eq!(range.check_limits(89), Err(Error::MinTradeVolumePerBlockReached));
    assert_eq!(range.check_limits(111), Err(Error::MaxTradeVolumePerBlockReached));
}

#[test]
fn first_touch_fixes_the_range_for_the_block() {
    let mut cb = Pallet::new(Percent::from_percent(20));
    assert_eq!(cb.before_pool_state_change(1, 1000), Ok(()));
    assert_eq!(cb.allowed_liquidity_range_per_asset(1), Some(LiquidityRange { min_limit: 800, max_limit: 1200 }));
    assert_eq!(cb.before_pool_state_change(1, 5000), Ok(()));
    assert_eq!(cb.allowed_liquidity_range_per_asset(1), Some(LiquidityRange { min_limit: 800, max_limit: 1200 }));
    assert_eq!(cb.after_pool_state_change(1, 800), Ok(()));
    assert_eq!(cb.after_pool_state_change(1, 1200), Ok(()));
    assert_eq!(cb.after_pool_state_change(1, 799), Err(Error::MinTradeVolumePerBlockReached));
    assert_eq!(cb.after_pool_state_change(1, 1201), Err(Error::MaxTradeVolumePerBlockReached));
}

#[test]
fn after_hook_without_before_hook_fails() {
    let cb = Pallet::new(Percent::from_percent(20));
    assert_eq!(cb.after_pool_state_change(1, 100), Err(Error::LiquidityLimitNotStoredForAsset));
}

#[test]
fn on_finalize_clears_ranges_even_when_none_is_set() {
    let mut cb = Pallet::new(Percent::from_percent(20));
    cb.on_finalize();
    cb.before_pool_state_change(1, 1000).unwrap();
    cb.on_finalize();
    assert_eq!(cb.allowed_liquidity_range_per_asset(1), None);
    assert_eq!(cb.after_pool_state_change(1, 1000), Err(Error::LiquidityLimitNotStoredForAsset));
}

#[test]
fn trade_volume_limit_per_asset_overrides_default() {
    let mut cb = Pallet::new(Percent::from_percent(20));
    assert_eq!(cb.DefaultTradeVolumeLimit(), Percent::from_percent(20));
    assert_eq!(cb.set_trade_volume_limit(1, Percent::from_percent(0)), Err(Error::InvalidTradeVolumeLimit));
    assert_eq!(cb.trade_volume_limit_per_asset(1), Percent::from_percent(20));
    assert_eq!(cb.set_trade_volume_limit(1, Percent::from_percent(5)), Ok(()));
    assert_eq!(cb.trade_volume_limit_per_asset(1), Percent::from_percent(5));
    assert_eq!(cb.trade_volume_limit_per_asset(2), Percent::from_percent(20));
    cb.before_pool_state_change(1, 1000).unwrap();
    assert_eq!(cb.allowed_liquidity_range_per_asset(1), Some(LiquidityRange { min_limit: 950, max_limit: 1050 }));
}

#[test]
fn range_rounds_the_allowed_change_down() {
    let cb = Pallet::new(Percent::from_percent(10));
    assert_eq!(cb.liquidity_range_for(7, 999), Ok(LiquidityRange { min_limit: 900, max_limit: 1098 }));
}

#[test]
fn range_above_the_largest_balance_overflows() {
    let mut cb = Pallet::new(Percent::from_percent(10));
    assert_eq!(cb.before_pool_state_change(1, u128::MAX), Err(Error::Arithmetic(ArithmeticError::Overflow)));
    assert_eq!(cb.allowed_liquidity_range_per_asset(1), None);
}
