use omnipool_core::arith::{Percent, Permill, Price};
use omnipool_core::omnipool::{Config, Error, Omnipool};
use omnipool_core::types::{AssetReserveState, SimpleImbalance, Tradability, SELL};

const HDX: u32 = 0;
const LRNA: u32 = 1;
const DAI: u32 = 2;
const PROTOCOL: u64 = 1_000_000;
const ONE: u128 = 1_000_000_000_000;
const NATIVE_AMOUNT: u128 = 10_000 * ONE;

fn config() -> Config {
    Config {
        hub_asset_id: LRNA,
        stable_asset_id: DAI,
        native_asset_id: HDX,
        protocol_account: PROTOCOL,
        asset_fee: Permill::from_percent(0),
        protocol_fee: Permill::from_percent(0),
        min_trading_limit: 0,
        min_pool_liquidity: 0,
        max_in_ratio: 1,
        max_out_ratio: 1,
        withdrawal_fee: Permill::from_percent(0),
    }
}

fn empty_pool() -> Omnipool {
    Omnipool::new(config(), u128::MAX, Percent::from_percent(100))
}

fn price(n: u128, d: u128) -> Price {
    Price::checked_from_rational(n, d).unwrap()
}

#[test]
fn initialize_pool_should_work_when_called_first_time_with_correct_params() {
    let mut pool = empty_pool();
    let stable_amount = 100 * ONE;
    let native_amount = 200 * ONE;
    let stable_price = price(1, 2);
    let native_price = price(3, 2);

    assert_eq!(
        pool.initialize_pool(
            stable_price,
            native_price,
            Permill::from_percent(50),
            Permill::from_percent(50),
            true,
            stable_amount,
            native_amount,
        ),
        Ok(())
    );

    let expected_hub = stable_price.checked_mul_int(stable_amount).unwrap()
        + native_price.checked_mul_int(native_amount).unwrap();
    let expected_tvl = native_price.checked_mul_int(native_amount).unwrap()
        * (stable_amount / stable_price.checked_mul_int(stable_amount).unwrap())
        + stable_amount;
    assert_eq!(pool.hub_asset_liquidity(), expected_hub);
    assert_eq!(pool.hub_asset_liquidity(), 350_000_000_000_000);
    assert_eq!(pool.total_tvl(), Some(expected_tvl));
    assert_eq!(pool.imbalance(), SimpleImbalance::zero());

    assert_eq!(
        pool.asset_state(DAI),
        Some(AssetReserveState {
            reserve: 100000000000000,
            hub_reserve: 50000000000000,
            shares: 100000000000000,
            protocol_shares: 100000000000000,
            cap: 500_000_000_000_000_000,
            tradable: Tradability::all_operations(),
        })
    );
    assert_eq!(
        pool.asset_state(HDX),
        Some(AssetReserveState {
            reserve: 200000000000000,
            hub_reserve: 300000000000000,
            shares: 200000000000000,
            protocol_shares: 200000000000000,
            cap: 500_000_000_000_000_000,
            tradable: Tradability::all_operations(),
        })
    );
    assert_eq!(pool.hub_asset_tradability(), Tradability::from_bits(SELL));
}

#[test]
fn initialize_pool_should_fail_when_already_initialized() {
    let mut pool = empty_pool();
    pool.initialize_pool(price(1, 2), price(1, 1), Permill::from_percent(100), Permill::from_percent(100), true, 1000 * ONE, NATIVE_AMOUNT).unwrap();
    assert_eq!(
        pool.initialize_pool(price(1, 2), price(3, 2), Permill::from_percent(100), Permill::from_percent(100), true, 1000 * ONE, NATIVE_AMOUNT),
        Err(Error::AssetAlreadyAdded)
    );
}

#[test]
fn initialize_pool_should_fail_when_stable_funds_missing_in_pool_account() {
    let mut pool = empty_pool();
    assert_eq!(
        pool.initialize_pool(price(1, 2), price(3, 2), Permill::from_percent(100), Permill::from_percent(100), true, 0, 0),
        Err(Error::MissingBalance)
    );
}

#[test]
fn initialize_pool_should_fail_when_native_funds_missing_in_pool_account() {
    let mut pool = empty_pool();
    assert_eq!(
        pool.initialize_pool(price(1, 2), price(3, 2), Permill::from_percent(100), Permill::from_percent(100), true, 1000 * ONE, 0),
        Err(Error::MissingBalance)
    );
}

#[test]
fn initialize_pool_should_fail_when_stable_price_is_zero() {
    let mut pool = empty_pool();
    assert_eq!(
        pool.initialize_pool(Price::from_inner(0), price(1, 1), Permill::from_percent(100), Permill::from_percent(100), true, 1000 * ONE, NATIVE_AMOUNT),
        Err(Error::InvalidInitialAssetPrice)
    );
}

#[test]
fn initialize_pool_should_fail_when_native_price_is_zero() {
    let mut pool = empty_pool();
    assert_eq!(
        pool.initialize_pool(price(1, 1), Price::from_inner(0), Permill::from_percent(100), Permill::from_percent(100), true, 1000 * ONE, 0),
        Err(Error::InvalidInitialAssetPrice)
    );
}

#[test]
fn update_weight_cap_of_native_stable_asset_should_work_when_pool_is_initialized() {
    let mut pool = empty_pool();
    pool.initialize_pool(price(1, 2), price(1, 1), Permill::from_percent(100), Permill::from_percent(100), true, 1000 * ONE, NATIVE_AMOUNT).unwrap();

    assert_eq!(pool.set_asset_weight_cap(HDX, Permill::from_rational(1, 100000).unwrap()), Ok(()));
    assert_eq!(
        pool.asset_state(HDX),
        Some(AssetReserveState {
            reserve: 10000000000000000,
            hub_reserve: 10000000000000000,
            shares: 10000000000000000,
            protocol_shares: 10000000000000000,
            cap: 10_000_000_000_000,
            tradable: Tradability::all_operations(),
        })
    );
    assert_eq!(pool.set_asset_weight_cap(DAI, Permill::from_percent(2)), Ok(()));
    assert_eq!(
        pool.asset_state(DAI),
        Some(AssetReserveState {
            reserve: 1000000000000000,
            hub_reserve: 500000000000000,
            shares: 1000000000000000,
            protocol_shares: 1000000000000000,
            cap: 20_000_000_000_000_000,
            tradable: Tradability::all_operations(),
        })
    );
}

#[test]
fn initialize_pool_should_fail_when_stable_asset_is_not_registered() {
    let mut pool = empty_pool();
    assert_eq!(
        pool.initialize_pool(price(1, 2), price(3, 2), Permill::from_percent(50), Permill::from_percent(50), false, 1000 * ONE, NATIVE_AMOUNT),
        Err(Error::AssetNotRegistered)
    );
}

#[test]
fn rococo() {
    let stable_amount = 50_000 * ONE * 1_000_000;
    let native_amount = 936_329_588_000_000_000;
    let dot_amount = 8771_929_825_0000;
    let mut pool = empty_pool();
    let native_price = Price::from_inner(1201500000000000);
    let stable_price = Price::from_inner(45_000_000_000);

    assert_eq!(
        pool.initialize_pool(stable_price, native_price, Permill::from_percent(100), Permill::from_percent(10), true, stable_amount, native_amount),
        Ok(())
    );
    assert_eq!(pool.hub_asset_liquidity(), 3374999999982000);
    assert_eq!(pool.total_tvl(), Some(74999999999600000000000));
    assert_eq!(pool.imbalance(), SimpleImbalance::zero());
    assert_eq!(
        pool.asset_state(DAI),
        Some(AssetReserveState {
            reserve: 50000000000000000000000,
            hub_reserve: 2250_000_000_000_000,
            shares: 50000000000000000000000,
            protocol_shares: 50000000000000000000000,
            cap: 1000000000000000000,
            tradable: Tradability::all_operations(),
        })
    );
    assert_eq!(
        pool.asset_state(HDX),
        Some(AssetReserveState {
            reserve: native_amount,
            hub_reserve: 1124999999982000,
            shares: 936329588000000000,
            protocol_shares: 936329588000000000,
            cap: 100000000000000000,
            tradable: Tradability::all_operations(),
        })
    );
    assert_eq!(pool.hub_asset_tradability(), Tradability::from_bits(SELL));

    let token_price = Price::from_inner(25_650_000_000_000_000_000);
    assert_eq!(pool.add_token(1_000, dot_amount, token_price, Permill::from_percent(100), 1, true), Ok(Some(0)));
    assert_eq!(pool.hub_asset_liquidity(), 5625000000094500);
    assert_eq!(pool.total_tvl(), Some(125000000002100000000000));
    assert_eq!(
        pool.asset_state(1_000),
        Some(AssetReserveState {
            reserve: dot_amount,
            hub_reserve: 2250_000_000_112_500,
            shares: 87719298250000,
            protocol_shares: 87719298250000,
            cap: 1000000000000000000,
            tradable: Tradability::all_operations(),
        })
    );
}
