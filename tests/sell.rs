use omnipool_core::arith::{Percent, Permill, Price};
use omnipool_core::omnipool::{Config, Error, Omnipool};
use omnipool_core::types::{AssetReserveState, SimpleImbalance, Tradability, ADD_LIQUIDITY, BUY, FROZEN, SELL};

const HDX: u32 = 0;
const LRNA: u32 = 1;
const DAI: u32 = 2;
const PROTOCOL: u64 = 1_000_000;
const LP1: u64 = 1;
const LP2: u64 = 2;
const LP3: u64 = 3;
const ONE: u128 = 1_000_000_000_000;
const NATIVE_AMOUNT: u128 = 10_000 * ONE;
const DEFAULT_WEIGHT_CAP: u128 = 1_000_000_000_000_000_000;

fn config(asset_fee: Permill, min_trading_limit: u128) -> Config {
    Config {
        hub_asset_id: LRNA,
        stable_asset_id: DAI,
        native_asset_id: HDX,
        protocol_account: PROTOCOL,
        asset_fee,
        protocol_fee: Permill::from_percent(0),
        min_trading_limit,
        min_pool_liquidity: 0,
        max_in_ratio: 1,
        max_out_ratio: 1,
        withdrawal_fee: Permill::from_percent(0),
    }
}

fn price(n: u128, d: u128) -> Price {
    Price::checked_from_rational(n, d).unwrap()
}

/// A pool holding DAI and HDX, priced at `stable` and `native`.
fn initialized_pool(asset_fee: Permill, stable: Price, native: Price) -> Omnipool {
    let mut pool = Omnipool::new(config(asset_fee, 0), u128::MAX, Percent::from_percent(100));
    pool.initialize_pool(stable, native, Permill::from_percent(100), Permill::from_percent(100), true, 1000 * ONE, NATIVE_AMOUNT)
        .unwrap();
    pool
}

fn with_token(pool: &mut Omnipool, asset: u32, token_price: Price, owner: u64, amount: u128) {
    pool.add_token(asset, amount, token_price, Permill::from_percent(100), owner, true).unwrap();
}

#[test]
fn simple_sell_works() {
    let mut pool = initialized_pool(Permill::from_percent(0), price(1, 2), price(1, 1));
    with_token(&mut pool, 100, price(65, 100), LP2, 2000 * ONE);
    with_token(&mut pool, 200, price(65, 100), LP3, 2000 * ONE);
    let mut lp1_100 = 1000 * ONE;

    let liq_added = 400 * ONE;
    pool.add_liquidity(LP1, lp1_100, 100, liq_added).unwrap();
    lp1_100 -= liq_added;

    let sell_amount = 50 * ONE;
    let min_limit = 10 * ONE;
    let q = pool.sell(lp1_100, 100, 200, sell_amount, min_limit).unwrap();
    lp1_100 -= q.amount_in;

    assert_eq!(lp1_100, 550000000000000);
    assert_eq!(q.amount_out, 47808764940238);
    assert_eq!(pool.hub_asset_liquidity(), 13360 * ONE);
    assert_eq!(2000 * ONE - q.amount_out, 1952191235059762);
    assert_eq!(pool.total_tvl(), Some(26_720 * ONE));
    assert_eq!(pool.imbalance(), SimpleImbalance { value: 0, negative: true });
    assert_eq!(
        pool.asset_state(100),
        Some(AssetReserveState {
            reserve: 2450 * ONE,
            hub_reserve: 1_528_163_265_306_123,
            shares: 2400 * ONE,
            protocol_shares: 2000 * ONE,
            cap: DEFAULT_WEIGHT_CAP,
            tradable: Tradability::all_operations(),
        })
    );
    assert_eq!(
        pool.asset_state(200),
        Some(AssetReserveState {
            reserve: 1952191235059762,
            hub_reserve: 1331836734693877,
            shares: 2000 * ONE,
            protocol_shares: 2000 * ONE,
            cap: DEFAULT_WEIGHT_CAP,
            tradable: Tradability::all_operations(),
        })
    );
}

#[test]
fn sell_insufficient_amount_fails() {
    let mut pool = Omnipool::new(config(Permill::from_percent(0), 5 * ONE), u128::MAX, Percent::from_percent(100));
    assert_eq!(pool.sell(0, 100, 200, ONE, 0), Err(Error::InsufficientTradingAmount));
    assert_eq!(pool.sell(0, LRNA, 200, ONE, 0), Err(Error::InsufficientTradingAmount));
}

#[test]
fn sell_with_insufficient_balance_fails() {
    let mut pool = Omnipool::new(config(Permill::from_percent(0), 0), u128::MAX, Percent::from_percent(100));
    assert_eq!(pool.sell(0, 100, 200, 10000 * ONE, 0), Err(Error::InsufficientBalance));
}

#[test]
fn hub_asset_buy_not_allowed() {
    let mut pool = initialized_pool(Permill::from_percent(0), price(1, 2), price(1, 1));
    assert_eq!(pool.sell(2000 * ONE, HDX, LRNA, 100 * ONE, 0), Err(Error::NotAllowed));
}

#[test]
fn selling_assets_not_in_pool_fails() {
    let mut pool = initialized_pool(Permill::from_percent(0), price(1, 2), price(1, 1));
    assert_eq!(pool.sell(1000 * ONE, 1000, HDX, 50 * ONE, 10 * ONE), Err(Error::AssetNotFound));
    assert_eq!(pool.sell(1000 * ONE, HDX, 1000, 50 * ONE, 10 * ONE), Err(Error::AssetNotFound));
    assert_eq!(pool.sell(1000 * ONE, 1000, 2000, 50 * ONE, 10 * ONE), Err(Error::AssetNotFound));
}

#[test]
fn sell_limit_works() {
    let mut pool = initialized_pool(Permill::from_percent(0), price(1, 2), price(1, 1));
    with_token(&mut pool, 100, price(65, 100), LP2, 2000 * ONE);
    assert_eq!(pool.sell(1000 * ONE, 100, HDX, 50 * ONE, 1000 * ONE), Err(Error::BuyLimitNotReached));
}

#[test]
fn sell_hub_asset_limit() {
    let mut pool = initialized_pool(Permill::from_percent(0), price(1, 2), price(1, 1));
    with_token(&mut pool, 100, price(1, 1), LP2, 2000 * ONE);
    assert_eq!(pool.sell(100 * ONE, LRNA, HDX, 50 * ONE, 1000 * ONE), Err(Error::BuyLimitNotReached));
}

#[test]
fn sell_hub_asset_should_fail_when_asset_out_is_not_allowed_to_buy() {
    let mut pool = initialized_pool(Permill::from_percent(0), price(1, 2), price(1, 1));
    with_token(&mut pool, 100, price(65, 100), LP1, 2000 * ONE);
    with_token(&mut pool, 200, price(65, 100), LP1, 2000 * ONE);
    assert_eq!(pool.set_asset_tradable_state(200, Tradability::from_bits(SELL | ADD_LIQUIDITY)), Ok(()));
    assert_eq!(pool.sell(100000000000000, LRNA, 200, 50000000000000, 10000000000000), Err(Error::NotAllowed));
}

#[test]
fn sell_not_allowed_asset_fails() {
    let mut pool = initialized_pool(Permill::from_percent(0), price(1, 2), price(1, 1));
    with_token(&mut pool, 100, price(65, 100), LP2, 2000 * ONE);
    with_token(&mut pool, 200, price(65, 100), LP3, 2000 * ONE);
    let lp1 = 1000 * ONE;

    assert_eq!(pool.set_asset_tradable_state(100, Tradability::from_bits(FROZEN)), Ok(()));
    assert_eq!(pool.sell(lp1, 100, 200, 50 * ONE, 10 * ONE), Err(Error::NotAllowed));
    assert_eq!(pool.set_asset_tradable_state(100, Tradability::from_bits(BUY)), Ok(()));
    assert_eq!(pool.sell(lp1, 100, 200, 50 * ONE, 10 * ONE), Err(Error::NotAllowed));
    assert_eq!(pool.set_asset_tradable_state(100, Tradability::from_bits(SELL)), Ok(()));
    let q = pool.sell(lp1, 100, 200, 50 * ONE, 10 * ONE).unwrap();
    let lp1 = lp1 - q.amount_in;

    assert_eq!(pool.set_asset_tradable_state(200, Tradability::from_bits(FROZEN)), Ok(()));
    assert_eq!(pool.sell(lp1, 100, 200, 50 * ONE, 10 * ONE), Err(Error::NotAllowed));
    assert_eq!(pool.set_asset_tradable_state(200, Tradability::from_bits(SELL)), Ok(()));
    assert_eq!(pool.sell(lp1, 100, 200, 50 * ONE, 10 * ONE), Err(Error::NotAllowed));
    assert_eq!(pool.set_asset_tradable_state(200, Tradability::from_bits(BUY)), Ok(()));
    assert!(pool.sell(lp1, 100, 200, 50 * ONE, 10 * ONE).is_ok());
}

#[test]
fn sell_hub_works() {
    let mut pool = initialized_pool(Permill::from_percent(0), price(1, 2), price(1, 1));
    with_token(&mut pool, 100, price(65, 100), LP1, 2000 * ONE);
    with_token(&mut pool, 200, price(65, 100), LP1, 2000 * ONE);
    pool.add_liquidity(LP2, 1000000000000000, 100, 400000000000000).unwrap();

    let q = pool.sell(100000000000000, LRNA, 200, 50000000000000, 10000000000000).unwrap();

    assert_eq!(q.amount_in, 50000000000000);
    assert_eq!(100000000000000 - q.amount_in, 50000000000000);
    assert_eq!(q.amount_out, 74074074074074);
    assert_eq!(pool.hub_asset_liquidity(), 13410000000000000);
    assert_eq!(pool.asset_state(DAI).map(|s| (s.reserve, s.hub_reserve, s.shares, s.protocol_shares)), Some((1000000000000000, 500000000000000, 1000000000000000, 1000000000000000)));
    assert_eq!(pool.asset_state(HDX).map(|s| (s.reserve, s.hub_reserve, s.shares, s.protocol_shares)), Some((10000000000000000, 10000000000000000, 10000000000000000, 10000000000000000)));
    assert_eq!(pool.asset_state(100).map(|s| (s.reserve, s.hub_reserve, s.shares)), Some((2400000000000000, 1560000000000000, 2400000000000000)));
    assert_eq!(pool.asset_state(200).map(|s| (s.reserve, s.hub_reserve, s.shares)), Some((1925925925925926, 1350000000000000, 2000000000000000)));
    assert_eq!(pool.imbalance(), SimpleImbalance { value: 98148148148148, negative: true });
}

#[test]
fn simple_sell_with_fee_works() {
    let mut pool = initialized_pool(Permill::from_percent(10), price(1, 1), price(1, 1));
    with_token(&mut pool, 100, price(1, 1), LP2, 2000 * ONE);
    with_token(&mut pool, 200, price(1, 1), LP3, 2000 * ONE);
    let sell_amount = 50 * ONE;
    let min_limit = 10 * ONE;

    let expected_zero_fee = 47_619_047_619_047u128;
    // The pool keeps the fee, rounded in its favour.
    let expected_10_percent_fee = Permill::from_percent(90).mul_floor(expected_zero_fee);
    assert_eq!(expected_10_percent_fee, 42_857_142_857_142);

    let q = pool.sell(1000 * ONE, 100, 200, sell_amount, min_limit).unwrap();
    assert_eq!(1000 * ONE - q.amount_in, 950_000_000_000_000);
    assert_eq!(q.amount_out, expected_10_percent_fee);
    assert_eq!(pool.asset_state(200).unwrap().reserve, 2000000000000000 - expected_10_percent_fee);
}

fn same_asset_pool() -> Omnipool {
    let mut pool = Omnipool::new(config(Permill::from_percent(0), 0), u128::MAX, Percent::from_percent(100));
    pool.initialize_pool(price(1, 1), price(1, 1), Permill::from_percent(100), Permill::from_percent(100), true, 1_000_000 * ONE, 1_000_000 * ONE)
        .unwrap();
    with_token(&mut pool, 100, price(1, 1), LP2, 10_000 * ONE);
    pool
}

#[test]
fn sell_same_asset_scenario_01() {
    let mut pool = same_asset_pool();
    let sell_amount = 50 * ONE;
    let min_limit = 10 * ONE;
    // An asset cannot be sold for itself; the pool stays as it was.
    let before = pool.asset_state(100);
    assert_eq!(pool.sell(150 * ONE, 100, 100, sell_amount, min_limit), Err(Error::SameAssetTradeNotAllowed));
    assert_eq!(pool.asset_state(100), before);
    let q = pool.sell(150 * ONE, 100, DAI, 150 * ONE, min_limit).unwrap();
    assert_eq!(q.amount_out, 147761414569275);
}

#[test]
fn sell_same_asset_scenario_02() {
    let mut pool = same_asset_pool();
    let min_limit = 10 * ONE;
    let remaining = 150 * ONE;
    let q = pool.sell(remaining, 100, DAI, remaining, min_limit).unwrap();
    assert_eq!(q.amount_out, 147761414569275);
}

#[test]
fn scenario_05() {
    let mut pool = Omnipool::new(config(Permill::from_percent(0), 0), u128::MAX, Percent::from_percent(100));
    pool.initialize_pool(price(1, 2), price(1, 1), Permill::from_percent(100), Permill::from_percent(100), true, 1000000000000000, 10000000000000000)
        .unwrap();
    with_token(&mut pool, 100, price(65, 100), LP1, 2000000000000000);
    with_token(&mut pool, 200, price(65, 100), LP1, 2000000000000000);
    pool.add_liquidity(LP2, 1000000000000000, 100, 400000000000000).unwrap();
    let q = pool.sell(1000000000000000, 100, 200, 50000000000000, 10000000000000).unwrap();

    assert_eq!(pool.hub_asset_liquidity(), 13360000000000000);
    assert_eq!(1000000000000000 - q.amount_in, 950000000000000);
    assert_eq!(q.amount_out, 47808764940238);
    assert_eq!(pool.asset_state(2).map(|s| (s.reserve, s.hub_reserve, s.shares, s.protocol_shares)), Some((1000000000000000, 500000000000000, 1000000000000000, 1000000000000000)));
    assert_eq!(pool.asset_state(0).map(|s| (s.reserve, s.hub_reserve, s.shares, s.protocol_shares)), Some((10000000000000000, 10000000000000000, 10000000000000000, 10000000000000000)));
    assert_eq!(pool.asset_state(100).map(|s| (s.reserve, s.hub_reserve, s.shares, s.protocol_shares)), Some((2450000000000000, 1528163265306123, 2400000000000000, 2000000000000000)));
    assert_eq!(pool.asset_state(200).map(|s| (s.reserve, s.hub_reserve, s.shares, s.protocol_shares)), Some((1952191235059762, 1331836734693877, 2000000000000000, 2000000000000000)));
    assert_eq!(pool.imbalance(), SimpleImbalance::zero());
}
