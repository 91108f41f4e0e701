//! The pool engine: the asset reserve ledger and the operations that change
//! it. Every operation computes its whole outcome before it writes anything,
//! so a failed call leaves the pool as it was.
//!
//! Balances of accounts live in a token ledger outside the engine: callers
//! pass in the balances that an operation checks, and perform the transfers
//! that a successful operation reports.

use vstd::prelude::*;
use vstd::std_specs::hash::*;
use std::collections::HashMap;
use crate::arith::{
    checked_mul_div, checked_ratio, ratio_ceil, ratio_floor, ArithmeticError, Percent, Permill, Price,
    Rounding, PERMILL_ACCURACY, PRICE_ACCURACY,
};
use crate::circuit_breaker::{self, range_check, LiquidityRange, Pallet};
use crate::math::{
    buy_quote, buy_with_hub_quote, quote_buy, quote_buy_with_hub, quote_sell, quote_sell_hub,
    sell_hub_quote, sell_quote, TradeQuote,
};
use crate::types::{
    AccountId, AssetId, AssetReserveState, Balance, Position, PositionId, SimpleImbalance,
    Tradability, ADD_LIQUIDITY, BUY, REMOVE_LIQUIDITY, SELL,
};

verus! {

broadcast use vstd::std_specs::hash::group_hash_axioms;

#[derive(Clone, Copy, Debug, PartialEq, Eq, Structural)]
pub enum Error {
    /// The caller does not hold the amount it would pay.
    InsufficientBalance,
    /// The amount is below the minimum trading amount.
    InsufficientTradingAmount,
    /// An asset of the call is not listed.
    AssetNotFound,
    /// The assets' tradability forbids the operation.
    NotAllowed,
    /// A sell would pay out less than the caller's minimum.
    BuyLimitNotReached,
    /// A buy would cost more than the caller's maximum.
    SellLimitExceeded,
    /// Both sides of a trade are the same asset.
    SameAssetTradeNotAllowed,
    /// The asset is listed already.
    AssetAlreadyAdded,
    /// The asset is unknown to the asset registry.
    AssetNotRegistered,
    /// The protocol account does not hold the funds to list the asset.
    MissingBalance,
    /// The price is zero, or too small to back the asset with hub units.
    InvalidInitialAssetPrice,
    /// The stable asset is not listed yet.
    NoStableAssetInPool,
    /// The amount in exceeds the share of the reserve one trade may take.
    MaxInRatioExceeded,
    /// The amount out exceeds the share of the reserve one trade may take.
    MaxOutRatioExceeded,
    /// The amount is below the minimum added liquidity, or a removal would
    /// empty the asset's reserves.
    InsufficientLiquidity,
    /// The asset's weight would exceed its cap.
    AssetWeightCapExceeded,
    /// The pool's total value would exceed its cap.
    TVLCapExceeded,
    /// No such position.
    PositionNotFound,
    /// The caller does not own the position.
    Forbidden,
    /// More shares than the position holds, or than the asset's liquidity
    /// providers hold.
    InsufficientShares,
    /// The pool's price of an asset is too far from the external price.
    PriceDifferenceTooHigh,
    Arithmetic(ArithmeticError),
    CircuitBreaker(circuit_breaker::Error),
}

/// Parameters of a pool, fixed when it is created.
#[derive(Clone, Copy, Debug, PartialEq, Eq, Structural)]
pub struct Config {
    pub hub_asset_id: AssetId,
    pub stable_asset_id: AssetId,
    pub native_asset_id: AssetId,
    /// The account that holds the pool's funds and owns protocol liquidity.
    pub protocol_account: AccountId,
    /// Part of a trade's output kept in the pool.
    pub asset_fee: Permill,
    /// Part of a trade's hub units withheld from the output leg.
    pub protocol_fee: Permill,
    pub min_trading_limit: Balance,
    pub min_pool_liquidity: Balance,
    /// One trade may pay in at most the reserve divided by this.
    pub max_in_ratio: Balance,
    /// One trade may pay out at most the reserve divided by this.
    pub max_out_ratio: Balance,
    /// Part of the reserve units owed on a removal of liquidity that stays in
    /// the pool.
    pub withdrawal_fee: Permill,
}

impl Config {
    pub open spec fn wf(self) -> bool {
        &&& self.asset_fee.wf()
        &&& self.protocol_fee.wf()
        &&& self.withdrawal_fee.wf()
        &&& self.asset_fee.parts < PERMILL_ACCURACY
        &&& self.protocol_fee.parts < PERMILL_ACCURACY
        &&& self.max_in_ratio > 0
        &&& self.max_out_ratio > 0
        &&& self.hub_asset_id != self.stable_asset_id
        &&& self.hub_asset_id != self.native_asset_id
        &&& self.stable_asset_id != self.native_asset_id
    }
}

/// The new imbalance once a protocol fee of `fee` hub units was withheld: a
/// negative imbalance shrinks by the fee, down to zero.
pub open spec fn imbalance_after_fee(imbalance: SimpleImbalance, fee: Balance) -> SimpleImbalance {
    if imbalance.negative {
        SimpleImbalance {
            value: if fee <= imbalance.value {
                (imbalance.value - fee) as u128
            } else {
                0
            },
            negative: true,
        }
    } else {
        imbalance
    }
}

/// The new imbalance once a trade paid in hub units moved it by `delta`
/// towards negative; `None` when the magnitude would not fit.
pub open spec fn imbalance_after_hub_payment(imbalance: SimpleImbalance, delta: Balance) -> Option<
    SimpleImbalance,
> {
    if imbalance.negative {
        if imbalance.value + delta > u128::MAX {
            None
        } else {
            Some(SimpleImbalance { value: (imbalance.value + delta) as u128, negative: true })
        }
    } else if delta <= imbalance.value {
        Some(SimpleImbalance { value: (imbalance.value - delta) as u128, negative: false })
    } else {
        Some(SimpleImbalance { value: (delta - imbalance.value) as u128, negative: true })
    }
}

/// The range that the circuit breaker holds a change of `asset` from
/// `before` to `after` to, or the reason it refuses the change.
pub open spec fn breaker_result(cb: Pallet, asset: AssetId, before: Balance, after: Balance) -> Result<
    LiquidityRange,
    circuit_breaker::Error,
> {
    match cb.range_for(asset, before) {
        Err(e) => Err(e),
        Ok(range) => match range_check(range, after) {
            Err(e) => Err(e),
            Ok(_) => Ok(range),
        },
    }
}

/// Weight of `hub_reserve` in a pool of `total` hub units, as an 18-decimal
/// fraction rounded down.
pub open spec fn weight_of(hub_reserve: Balance, total: Balance) -> Option<u128> {
    checked_ratio(hub_reserve as int, PRICE_ACCURACY as int, total as int, Rounding::Down)
}

/// State of an asset listed with `amount` units at `price` hub units each,
/// all shares owned by the protocol.
pub open spec fn seeded_state(amount: Balance, hub_reserve: Balance, cap: Permill) -> AssetReserveState {
    AssetReserveState {
        reserve: amount,
        hub_reserve,
        shares: amount,
        protocol_shares: amount,
        cap: (cap.parts * 1_000_000_000_000) as u128,
        tradable: Tradability { bits: SELL | BUY | ADD_LIQUIDITY | REMOVE_LIQUIDITY },
    }
}

/// Hub units that back `amount` units at `price`, rounded down.
pub open spec fn hub_value(price: Price, amount: Balance) -> Option<u128> {
    checked_ratio(price.inner as int, amount as int, PRICE_ACCURACY as int, Rounding::Down)
}

/// What a removal of liquidity pays the position's owner.
#[derive(Clone, Copy, Debug, PartialEq, Eq, Structural)]
pub struct RemovedLiquidity {
    /// Units of the position's asset.
    pub asset_amount: Balance,
    /// Hub units, paid when the asset's price rose since the deposit.
    pub hub_amount: Balance,
}

/// Effect of adding liquidity: the asset's new state, the shares minted and
/// the pool's new hub liquidity.
pub struct LiquidityAdded {
    pub state: AssetReserveState,
    pub shares: Balance,
    pub hub_liquidity: Balance,
}

/// Effect of removing liquidity, before the position itself is updated.
pub struct LiquidityRemoved {
    pub state: AssetReserveState,
    pub paid: RemovedLiquidity,
    pub hub_liquidity: Balance,
    /// Hub units removed from the asset and not paid out.
    pub burned: Balance,
    /// Deposit units taken off a position that keeps some shares.
    pub amount_reduction: Balance,
}

/// Whether the pool's price of an asset, `hub_reserve / reserve` hub units
/// per unit, lies within `max_diff` of the external price
/// `price_n / price_d`, both sides exact.
pub open spec fn price_within(
    st: AssetReserveState,
    price_n: Balance,
    price_d: Balance,
    max_diff: Permill,
) -> bool {
    let pool_side = st.hub_reserve * price_d;
    let external_side = price_n * st.reserve;
    let diff = if pool_side >= external_side {
        pool_side - external_side
    } else {
        external_side - pool_side
    };
    diff * PERMILL_ACCURACY <= max_diff.parts * external_side
}

/// Price barrier: refuses a trade of an asset whose pool price differs from
/// the external price `price_n / price_d` (hub units per unit, as an oracle
/// reports it) by more than `max_diff` of the external price. The caller,
/// which consumes the oracle, runs it before `sell` or `buy`.
pub fn ensure_price_within(
    st: &AssetReserveState,
    price_n: Balance,
    price_d: Balance,
    max_diff: Permill,
) -> (r: Result<(), Error>)
    requires
        max_diff.wf(),
    ensures
        r == (if st.hub_reserve * price_d > u128::MAX || price_n * st.reserve > u128::MAX {
            Err(Error::Arithmetic(ArithmeticError::Overflow))
        } else if price_within(*st, price_n, price_d, max_diff) {
            Ok(())
        } else {
            Err(Error::PriceDifferenceTooHigh)
        }),
{
    let (pool_side, external_side) = match (
        st.hub_reserve.checked_mul(price_d),
        price_n.checked_mul(st.reserve),
    ) {
        (Some(p), Some(e)) => (p, e),
        _ => return Err(Error::Arithmetic(ArithmeticError::Overflow)),
    };
    let diff = if pool_side >= external_side {
        pool_side - external_side
    } else {
        external_side - pool_side
    };
    proof {
        crate::math::lemma_ratio_floor_fraction(
            external_side as int,
            max_diff.parts as int,
            PERMILL_ACCURACY as int,
        );
        lemma_within_by_quotient(
            diff as int,
            external_side as int,
            max_diff.parts as int,
            PERMILL_ACCURACY as int,
        );
    }
    let allowed = max_diff.mul_floor(external_side);
    if diff <= allowed {
        Ok(())
    } else {
        Err(Error::PriceDifferenceTooHigh)
    }
}

/// `x * d <= p * e` exactly when `x` is at most `e * p / d` rounded down.
proof fn lemma_within_by_quotient(x: int, e: int, p: int, d: int)
    requires
        x >= 0,
        e >= 0,
        p >= 0,
        d > 0,
    ensures
        (x * d <= p * e) <==> x <= ratio_floor(e, p, d),
{
    vstd::arithmetic::div_mod::lemma_fundamental_div_mod(e * p, d);
    assert(p * e == e * p) by (nonlinear_arith);
    assert((x * d <= e * p) <==> x <= (e * p) / d) by (nonlinear_arith)
        requires
            e * p == d * ((e * p) / d) + (e * p) % d,
            0 <= (e * p) % d < d,
            d > 0,
            x >= 0,
    ;
}

/// The state of the pool.
pub struct Omnipool {
    config: Config,
    assets: HashMap<AssetId, AssetReserveState>,
    positions: HashMap<PositionId, Position>,
    position_owners: HashMap<PositionId, AccountId>,
    next_position_id: PositionId,
    hub_asset_liquidity: Balance,
    imbalance: SimpleImbalance,
    tvl_cap: Balance,
    hub_asset_tradability: Tradability,
    circuit_breaker: Pallet,
}

impl Omnipool {
    pub closed spec fn config_spec(&self) -> Config {
        self.config
    }

    /// Listed assets and their states.
    pub closed spec fn assets(&self) -> Map<AssetId, AssetReserveState> {
        self.assets@
    }

    pub closed spec fn positions(&self) -> Map<PositionId, Position> {
        self.positions@
    }

    pub closed spec fn owners(&self) -> Map<PositionId, AccountId> {
        self.position_owners@
    }

    /// Identifier the next position will get.
    pub closed spec fn next_position(&self) -> PositionId {
        self.next_position_id
    }

    /// Total hub units across all listed assets.
    pub closed spec fn hub_liquidity(&self) -> Balance {
        self.hub_asset_liquidity
    }

    pub closed spec fn imbalance_spec(&self) -> SimpleImbalance {
        self.imbalance
    }

    pub closed spec fn tvl_cap_spec(&self) -> Balance {
        self.tvl_cap
    }

    pub closed spec fn hub_tradability(&self) -> Tradability {
        self.hub_asset_tradability
    }

    pub closed spec fn breaker(&self) -> Pallet {
        self.circuit_breaker
    }

    /// The pool's invariant: every listed asset has positive reserves and no
    /// more protocol shares than shares, and the hub asset is not listed.
    pub open spec fn wf(&self) -> bool {
        &&& self.config_spec().wf()
        &&& self.breaker().wf()
        &&& !self.assets().contains_key(self.config_spec().hub_asset_id)
        &&& forall|a: AssetId| #[trigger]
            self.assets().contains_key(a) ==> self.assets()[a].wf()
    }

    /// Everything but the ledger of assets, the hub liquidity, the
    /// imbalance and the circuit breaker's ranges is as in `old`.
    pub open spec fn keeps_settings(&self, old: &Omnipool) -> bool {
        &&& self.config_spec() == old.config_spec()
        &&& self.tvl_cap_spec() == old.tvl_cap_spec()
        &&& self.hub_tradability() == old.hub_tradability()
        &&& self.breaker().limits() == old.breaker().limits()
        &&& self.breaker().default_limit_spec() == old.breaker().default_limit_spec()
    }

    /// Everything is as in `old`.
    pub open spec fn unchanged(&self, old: &Omnipool) -> bool {
        &&& self.keeps_settings(old)
        &&& self.assets() == old.assets()
        &&& self.positions() == old.positions()
        &&& self.owners() == old.owners()
        &&& self.next_position() == old.next_position()
        &&& self.hub_liquidity() == old.hub_liquidity()
        &&& self.imbalance_spec() == old.imbalance_spec()
        &&& self.breaker().ranges() == old.breaker().ranges()
    }

    /// An empty pool: nothing listed, no positions, no imbalance; the hub
    /// asset may be traded in every direction until the pool is initialized.
    pub fn new(config: Config, tvl_cap: Balance, trade_volume_limit: Percent) -> (r: Omnipool)
        requires
            config.wf(),
            trade_volume_limit.wf(),
            trade_volume_limit.parts > 0,
        ensures
            r.wf(),
            r.config_spec() == config,
            r.tvl_cap_spec() == tvl_cap,
            r.assets() == Map::<AssetId, AssetReserveState>::empty(),
            r.positions() == Map::<PositionId, Position>::empty(),
            r.owners() == Map::<PositionId, AccountId>::empty(),
            r.hub_liquidity() == 0,
            r.next_position() == 0,
            r.imbalance_spec() == (SimpleImbalance { value: 0, negative: true }),
            r.hub_tradability().bits == SELL | BUY | ADD_LIQUIDITY | REMOVE_LIQUIDITY,
            r.breaker().default_limit_spec() == trade_volume_limit,
            r.breaker().ranges() == Map::<AssetId, LiquidityRange>::empty(),
            r.breaker().limits() == Map::<AssetId, Percent>::empty(),
    {
        Omnipool {
            config,
            assets: HashMap::new(),
            positions: HashMap::new(),
            position_owners: HashMap::new(),
            next_position_id: 0,
            hub_asset_liquidity: 0,
            imbalance: SimpleImbalance::zero(),
            tvl_cap,
            hub_asset_tradability: Tradability::all_operations(),
            circuit_breaker: Pallet::new(trade_volume_limit),
        }
    }

    /// Outcome of `initialize_pool`, decided on the state before the call.
    pub open spec fn initialize_result(
        &self,
        stable_price: Price,
        native_price: Price,
        stable_registered: bool,
        stable_amount: Balance,
        native_amount: Balance,
    ) -> Result<(Balance, Balance), Error> {
        let stable = self.config_spec().stable_asset_id;
        let native = self.config_spec().native_asset_id;
        if self.assets().contains_key(stable) || self.assets().contains_key(native) {
            Err(Error::AssetAlreadyAdded)
        } else if !stable_registered {
            Err(Error::AssetNotRegistered)
        } else if stable_price.inner == 0 || native_price.inner == 0 {
            Err(Error::InvalidInitialAssetPrice)
        } else if stable_amount == 0 || native_amount == 0 {
            Err(Error::MissingBalance)
        } else {
            match (hub_value(stable_price, stable_amount), hub_value(native_price, native_amount)) {
                (Some(stable_hub), Some(native_hub)) => if stable_hub == 0 || native_hub == 0 {
                    Err(Error::InvalidInitialAssetPrice)
                } else if self.hub_liquidity() + stable_hub + native_hub > u128::MAX {
                    Err(Error::Arithmetic(ArithmeticError::Overflow))
                } else {
                    Ok((stable_hub, native_hub))
                },
                _ => Err(Error::Arithmetic(ArithmeticError::Overflow)),
            }
        }
    }

    /// Lists the stable and the native asset with all the funds that the
    /// protocol account holds of them (`stable_amount`, `native_amount`) at
    /// the given prices, the protocol owning every share; from then on the
    /// hub asset may only be sold to the pool.
    pub fn initialize_pool(
        &mut self,
        stable_price: Price,
        native_price: Price,
        stable_weight_cap: Permill,
        native_weight_cap: Permill,
        stable_registered: bool,
        stable_amount: Balance,
        native_amount: Balance,
    ) -> (r: Result<(), Error>)
        requires
            old(self).wf(),
            stable_weight_cap.wf(),
            native_weight_cap.wf(),
        ensures
            final(self).wf(),
            match old(self).initialize_result(
                stable_price,
                native_price,
                stable_registered,
                stable_amount,
                native_amount,
            ) {
                Err(e) => r == Err::<(), Error>(e) && final(self).unchanged(old(self)),
                Ok((stable_hub, native_hub)) => {
                    &&& r is Ok
                    &&& final(self).assets() == old(self).assets().insert(
                        old(self).config_spec().stable_asset_id,
                        seeded_state(stable_amount, stable_hub, stable_weight_cap),
                    ).insert(
                        old(self).config_spec().native_asset_id,
                        seeded_state(native_amount, native_hub, native_weight_cap),
                    )
                    &&& final(self).hub_liquidity() == old(self).hub_liquidity() + stable_hub
                        + native_hub
                    &&& final(self).hub_tradability() == (Tradability { bits: SELL })
                    &&& final(self).config_spec() == old(self).config_spec()
                    &&& final(self).tvl_cap_spec() == old(self).tvl_cap_spec()
                    &&& final(self).breaker() == old(self).breaker()
                    &&& final(self).positions() == old(self).positions()
                    &&& final(self).owners() == old(self).owners()
                    &&& final(self).next_position() == old(self).next_position()
                    &&& final(self).imbalance_spec() == old(self).imbalance_spec()
                },
            },
    {
        let stable = self.config.stable_asset_id;
        let native = self.config.native_asset_id;
        if self.assets.contains_key(&stable) || self.assets.contains_key(&native) {
            return Err(Error::AssetAlreadyAdded);
        }
        if !stable_registered {
            return Err(Error::AssetNotRegistered);
        }
        if stable_price.is_zero() || native_price.is_zero() {
            return Err(Error::InvalidInitialAssetPrice);
        }
        if stable_amount == 0 || native_amount == 0 {
            return Err(Error::MissingBalance);
        }
        let stable_hub = stable_price.checked_mul_int(stable_amount);
        let native_hub = native_price.checked_mul_int(native_amount);
        let (stable_hub, native_hub) = match (stable_hub, native_hub) {
            (Some(s), Some(n)) => (s, n),
            _ => return Err(Error::Arithmetic(ArithmeticError::Overflow)),
        };
        if stable_hub == 0 || native_hub == 0 {
            return Err(Error::InvalidInitialAssetPrice);
        }
        let total = match stable_hub.checked_add(native_hub) {
            Some(t) => t,
            None => return Err(Error::Arithmetic(ArithmeticError::Overflow)),
        };
        let total = match self.hub_asset_liquidity.checked_add(total) {
            Some(t) => t,
            None => return Err(Error::Arithmetic(ArithmeticError::Overflow)),
        };
        let stable_state = AssetReserveState {
            reserve: stable_amount,
            hub_reserve: stable_hub,
            shares: stable_amount,
            protocol_shares: stable_amount,
            cap: stable_weight_cap.to_price().inner,
            tradable: Tradability::all_operations(),
        };
        let native_state = AssetReserveState {
            reserve: native_amount,
            hub_reserve: native_hub,
            shares: native_amount,
            protocol_shares: native_amount,
            cap: native_weight_cap.to_price().inner,
            tradable: Tradability::all_operations(),
        };
        self.assets.insert(stable, stable_state);
        self.assets.insert(native, native_state);
        self.hub_asset_liquidity = total;
        self.hub_asset_tradability = Tradability::from_bits(SELL);
        proof {
            assert forall|a: AssetId| #[trigger] self.assets().contains_key(a) implies self.assets()[
                a].wf() by {
                if a != stable && a != native {
                    assert(old(self).assets().contains_key(a));
                }
            }
        }
        Ok(())
    }

    /// The states of the two assets of a trade, once it is known that both
    /// are listed (the hub asset standing for itself) and that their
    /// tradability lets `asset_in` be sold and `asset_out` be bought.
    ///
    /// The hub asset can be paid into the pool, as its tradability allows,
    /// but never bought out of it: a trade into the hub asset is refused
    /// with `NotAllowed` whatever the hub asset's tradability says.
    pub open spec fn trade_assets(&self, asset_in: AssetId, asset_out: AssetId) -> Result<
        (Option<AssetReserveState>, AssetReserveState),
        Error,
    > {
        let hub = self.config_spec().hub_asset_id;
        if asset_in == asset_out {
            Err(Error::SameAssetTradeNotAllowed)
        } else if asset_out == hub {
            Err(Error::NotAllowed)
        } else if asset_in != hub && !self.assets().contains_key(asset_in) {
            Err(Error::AssetNotFound)
        } else if !self.assets().contains_key(asset_out) {
            Err(Error::AssetNotFound)
        } else if (asset_in == hub && !self.hub_tradability().allows(SELL)) || (asset_in != hub
            && !self.assets()[asset_in].tradable.allows(SELL)) {
            Err(Error::NotAllowed)
        } else if !self.assets()[asset_out].tradable.allows(BUY) {
            Err(Error::NotAllowed)
        } else if asset_in == hub {
            Ok((None, self.assets()[asset_out]))
        } else {
            Ok((Some(self.assets()[asset_in]), self.assets()[asset_out]))
        }
    }

    /// Outcome of writing the trade `q` to the pool: the circuit breaker's
    /// ranges for the assets touched, and the new hub liquidity.
    pub open spec fn commit_result(&self, asset_in: AssetId, asset_out: AssetId, q: TradeQuote) -> Result<
        (Option<LiquidityRange>, LiquidityRange, Balance),
        Error,
    > {
        let hub_in = asset_in == self.config_spec().hub_asset_id;
        let range_in: Result<Option<LiquidityRange>, circuit_breaker::Error> = if hub_in {
            Ok(None)
        } else {
            match breaker_result(
                self.breaker(),
                asset_in,
                self.assets()[asset_in].reserve,
                q.asset_in.reserve,
            ) {
                Ok(range) => Ok(Some(range)),
                Err(e) => Err(e),
            }
        };
        match range_in {
            Err(e) => Err(Error::CircuitBreaker(e)),
            Ok(ri) => match breaker_result(
                self.breaker(),
                asset_out,
                self.assets()[asset_out].reserve,
                q.asset_out.reserve,
            ) {
                Err(e) => Err(Error::CircuitBreaker(e)),
                Ok(ro) => if hub_in {
                    if self.hub_liquidity() + q.hub_received > u128::MAX
                        || imbalance_after_hub_payment(self.imbalance_spec(), q.hub_imbalance) is None {
                        Err(Error::Arithmetic(ArithmeticError::Overflow))
                    } else {
                        Ok((ri, ro, (self.hub_liquidity() + q.hub_received) as u128))
                    }
                } else {
                    if self.hub_liquidity() < q.protocol_fee {
                        Err(Error::Arithmetic(ArithmeticError::Underflow))
                    } else {
                        Ok((ri, ro, (self.hub_liquidity() - q.protocol_fee) as u128))
                    }
                },
            },
        }
    }

    /// `self` is `old` with the trade `q` written to it.
    pub open spec fn is_traded(&self, old: &Omnipool, asset_in: AssetId, asset_out: AssetId, q: TradeQuote) -> bool {
        let hub_in = asset_in == old.config_spec().hub_asset_id;
        match old.commit_result(asset_in, asset_out, q) {
            Err(_) => false,
            Ok((ri, ro, liquidity)) => {
                &&& self.keeps_settings(old)
                &&& self.positions() == old.positions()
                &&& self.owners() == old.owners()
                &&& self.next_position() == old.next_position()
                &&& self.hub_liquidity() == liquidity
                &&& if hub_in {
                    &&& self.assets() == old.assets().insert(asset_out, q.asset_out)
                    &&& self.breaker().ranges() == old.breaker().ranges().insert(asset_out, ro)
                    &&& self.imbalance_spec() == imbalance_after_hub_payment(
                        old.imbalance_spec(),
                        q.hub_imbalance,
                    )->0
                } else {
                    &&& self.assets() == old.assets().insert(asset_in, q.asset_in).insert(
                        asset_out,
                        q.asset_out,
                    )
                    &&& self.breaker().ranges() == old.breaker().ranges().insert(
                        asset_in,
                        ri->0,
                    ).insert(asset_out, ro)
                    &&& self.imbalance_spec() == imbalance_after_fee(
                        old.imbalance_spec(),
                        q.protocol_fee,
                    )
                }
            },
        }
    }

    /// Outcome of `sell`, decided on the state before the call.
    pub open spec fn sell_result(
        &self,
        who_balance: Balance,
        asset_in: AssetId,
        asset_out: AssetId,
        amount: Balance,
        min_buy_amount: Balance,
    ) -> Result<TradeQuote, Error> {
        let cfg = self.config_spec();
        if amount < cfg.min_trading_limit {
            Err(Error::InsufficientTradingAmount)
        } else if who_balance < amount {
            Err(Error::InsufficientBalance)
        } else {
            match self.trade_assets(asset_in, asset_out) {
                Err(e) => Err(e),
                Ok((st_in, st_out)) => if st_in matches Some(s) && amount > s.reserve
                    / cfg.max_in_ratio {
                    Err(Error::MaxInRatioExceeded)
                } else {
                    let quote = match st_in {
                        Some(s) => sell_quote(s, st_out, amount, cfg.asset_fee, cfg.protocol_fee),
                        None => sell_hub_quote(st_out, amount, cfg.asset_fee),
                    };
                    match quote {
                        None => Err(Error::Arithmetic(ArithmeticError::Overflow)),
                        Some(q) => if q.amount_out < min_buy_amount {
                            Err(Error::BuyLimitNotReached)
                        } else if q.amount_out > st_out.reserve / cfg.max_out_ratio {
                            Err(Error::MaxOutRatioExceeded)
                        } else {
                            match self.commit_result(asset_in, asset_out, q) {
                                Err(e) => Err(e),
                                Ok(_) => Ok(q),
                            }
                        },
                    }
                },
            }
        }
    }

    /// Outcome of `buy`, decided on the state before the call.
    pub open spec fn buy_result(
        &self,
        who_balance: Balance,
        asset_in: AssetId,
        asset_out: AssetId,
        amount: Balance,
        max_sell_amount: Balance,
    ) -> Result<TradeQuote, Error> {
        let cfg = self.config_spec();
        if amount < cfg.min_trading_limit {
            Err(Error::InsufficientTradingAmount)
        } else {
            match self.trade_assets(asset_in, asset_out) {
                Err(e) => Err(e),
                Ok((st_in, st_out)) => if amount > st_out.reserve / cfg.max_out_ratio {
                    Err(Error::MaxOutRatioExceeded)
                } else {
                    let quote = match st_in {
                        Some(s) => buy_quote(s, st_out, amount, cfg.asset_fee, cfg.protocol_fee),
                        None => buy_with_hub_quote(st_out, amount, cfg.asset_fee),
                    };
                    match quote {
                        None => Err(Error::Arithmetic(ArithmeticError::Overflow)),
                        Some(q) => if q.amount_in > max_sell_amount {
                            Err(Error::SellLimitExceeded)
                        } else if st_in matches Some(s) && q.amount_in > s.reserve
                            / cfg.max_in_ratio {
                            Err(Error::MaxInRatioExceeded)
                        } else if who_balance < q.amount_in {
                            Err(Error::InsufficientBalance)
                        } else {
                            match self.commit_result(asset_in, asset_out, q) {
                                Err(e) => Err(e),
                                Ok(_) => Ok(q),
                            }
                        },
                    }
                },
            }
        }
    }

    fn get_trade_assets(&self, asset_in: AssetId, asset_out: AssetId) -> (r: Result<
        (Option<AssetReserveState>, AssetReserveState),
        Error,
    >)
        requires
            self.wf(),
        ensures
            r == self.trade_assets(asset_in, asset_out),
            r matches Ok((st_in, st_out)) ==> st_out.wf() && (st_in matches Some(s) ==> s.wf()),
    {
        let hub = self.config.hub_asset_id;
        if asset_in == asset_out {
            return Err(Error::SameAssetTradeNotAllowed);
        }
        if asset_out == hub {
            return Err(Error::NotAllowed);
        }
        let st_in = if asset_in == hub {
            None
        } else {
            match self.assets.get(&asset_in) {
                Some(s) => Some(*s),
                None => return Err(Error::AssetNotFound),
            }
        };
        let st_out = match self.assets.get(&asset_out) {
            Some(s) => *s,
            None => return Err(Error::AssetNotFound),
        };
        let sell_allowed = match st_in {
            Some(s) => s.tradable.contains(SELL),
            None => self.hub_asset_tradability.contains(SELL),
        };
        if !sell_allowed {
            return Err(Error::NotAllowed);
        }
        if !st_out.tradable.contains(BUY) {
            return Err(Error::NotAllowed);
        }
        Ok((st_in, st_out))
    }

    fn check_breaker(cb: &Pallet, asset: AssetId, before: Balance, after: Balance) -> (r: Result<
        LiquidityRange,
        circuit_breaker::Error,
    >)
        requires
            cb.wf(),
        ensures
            r == breaker_result(*cb, asset, before, after),
    {
        let range = match cb.liquidity_range_for(asset, before) {
            Ok(range) => range,
            Err(e) => return Err(e),
        };
        match range.check_limits(after) {
            Ok(()) => Ok(range),
            Err(e) => Err(e),
        }
    }

    fn commit_trade(&mut self, asset_in: AssetId, asset_out: AssetId, q: TradeQuote) -> (r: Result<
        (),
        Error,
    >)
        requires
            old(self).wf(),
            asset_in != asset_out,
            asset_out != old(self).config_spec().hub_asset_id,
            old(self).assets().contains_key(asset_out),
            asset_in != old(self).config_spec().hub_asset_id ==> old(self).assets().contains_key(
                asset_in,
            ),
            q.asset_in.wf(),
            q.asset_out.wf(),
        ensures
            final(self).wf(),
            match old(self).commit_result(asset_in, asset_out, q) {
                Err(e) => r == Err::<(), Error>(e) && final(self).unchanged(old(self)),
                Ok(_) => r is Ok && final(self).is_traded(old(self), asset_in, asset_out, q),
            },
    {
        let hub_in = asset_in == self.config.hub_asset_id;
        let mut before_in: Balance = 0;
        if !hub_in {
            let st_in = match self.assets.get(&asset_in) {
                Some(s) => *s,
                None => return Err(Error::AssetNotFound),
            };
            before_in = st_in.reserve;
            match Self::check_breaker(&self.circuit_breaker, asset_in, before_in, q.asset_in.reserve) {
                Ok(_) => {},
                Err(e) => return Err(Error::CircuitBreaker(e)),
            }
        }
        let before_out = match self.assets.get(&asset_out) {
            Some(s) => s.reserve,
            None => return Err(Error::AssetNotFound),
        };
        match Self::check_breaker(&self.circuit_breaker, asset_out, before_out, q.asset_out.reserve) {
            Ok(_) => {},
            Err(e) => return Err(Error::CircuitBreaker(e)),
        }
        let mut hub_paid_imbalance = self.imbalance;
        let liquidity = if hub_in {
            hub_paid_imbalance = if self.imbalance.negative {
                match self.imbalance.value.checked_add(q.hub_imbalance) {
                    Some(v) => SimpleImbalance { value: v, negative: true },
                    None => return Err(Error::Arithmetic(ArithmeticError::Overflow)),
                }
            } else if q.hub_imbalance <= self.imbalance.value {
                SimpleImbalance { value: self.imbalance.value - q.hub_imbalance, negative: false }
            } else {
                SimpleImbalance { value: q.hub_imbalance - self.imbalance.value, negative: true }
            };
            match self.hub_asset_liquidity.checked_add(q.hub_received) {
                Some(v) => v,
                None => return Err(Error::Arithmetic(ArithmeticError::Overflow)),
            }
        } else {
            match self.hub_asset_liquidity.checked_sub(q.protocol_fee) {
                Some(v) => v,
                None => return Err(Error::Arithmetic(ArithmeticError::Underflow)),
            }
        };
        if !hub_in {
            let _ = self.circuit_breaker.before_pool_state_change(asset_in, before_in);
            self.assets.insert(asset_in, q.asset_in);
            self.imbalance = if self.imbalance.negative {
                SimpleImbalance {
                    value: if q.protocol_fee <= self.imbalance.value {
                        self.imbalance.value - q.protocol_fee
                    } else {
                        0
                    },
                    negative: true,
                }
            } else {
                self.imbalance
            };
        }
        if hub_in {
            self.imbalance = hub_paid_imbalance;
        }
        let _ = self.circuit_breaker.before_pool_state_change(asset_out, before_out);
        self.assets.insert(asset_out, q.asset_out);
        self.hub_asset_liquidity = liquidity;
        proof {
            assert forall|a: AssetId| #[trigger] self.assets().contains_key(a) implies self.assets()[
                a].wf() by {
                if a != asset_in && a != asset_out {
                    assert(old(self).assets().contains_key(a));
                }
            }
        }
        Ok(())
    }

    /// Sells `amount` of `asset_in` for `asset_out`, the caller holding
    /// `who_balance` of `asset_in`, and insists on at least `min_buy_amount`
    /// in return. On success the returned quote says what the caller pays in
    /// and receives.
    pub fn sell(
        &mut self,
        who_balance: Balance,
        asset_in: AssetId,
        asset_out: AssetId,
        amount: Balance,
        min_buy_amount: Balance,
    ) -> (r: Result<TradeQuote, Error>)
        requires
            old(self).wf(),
        ensures
            final(self).wf(),
            r == old(self).sell_result(who_balance, asset_in, asset_out, amount, min_buy_amount),
            r is Err ==> final(self).unchanged(old(self)),
            r matches Ok(q) ==> final(self).is_traded(old(self), asset_in, asset_out, q),
    {
        let cfg = self.config;
        if amount < cfg.min_trading_limit {
            return Err(Error::InsufficientTradingAmount);
        }
        if who_balance < amount {
            return Err(Error::InsufficientBalance);
        }
        let (st_in, st_out) = match self.get_trade_assets(asset_in, asset_out) {
            Ok(v) => v,
            Err(e) => return Err(e),
        };
        let quote = match st_in {
            Some(s) => {
                if amount > s.reserve / cfg.max_in_ratio {
                    return Err(Error::MaxInRatioExceeded);
                }
                quote_sell(&s, &st_out, amount, cfg.asset_fee, cfg.protocol_fee)
            },
            None => quote_sell_hub(&st_out, amount, cfg.asset_fee),
        };
        let q = match quote {
            Some(q) => q,
            None => return Err(Error::Arithmetic(ArithmeticError::Overflow)),
        };
        if q.amount_out < min_buy_amount {
            return Err(Error::BuyLimitNotReached);
        }
        if q.amount_out > st_out.reserve / cfg.max_out_ratio {
            return Err(Error::MaxOutRatioExceeded);
        }
        match self.commit_trade(asset_in, asset_out, q) {
            Ok(()) => Ok(q),
            Err(e) => Err(e),
        }
    }

    /// Buys `amount` of `asset_out` with `asset_in`, the caller holding
    /// `who_balance` of `asset_in`, paying at most `max_sell_amount`. On
    /// success the returned quote says what the caller pays in and receives.
    pub fn buy(
        &mut self,
        who_balance: Balance,
        asset_in: AssetId,
        asset_out: AssetId,
        amount: Balance,
        max_sell_amount: Balance,
    ) -> (r: Result<TradeQuote, Error>)
        requires
            old(self).wf(),
        ensures
            final(self).wf(),
            r == old(self).buy_result(who_balance, asset_in, asset_out, amount, max_sell_amount),
            r is Err ==> final(self).unchanged(old(self)),
            r matches Ok(q) ==> final(self).is_traded(old(self), asset_in, asset_out, q),
    {
        let cfg = self.config;
        if amount < cfg.min_trading_limit {
            return Err(Error::InsufficientTradingAmount);
        }
        let (st_in, st_out) = match self.get_trade_assets(asset_in, asset_out) {
            Ok(v) => v,
            Err(e) => return Err(e),
        };
        if amount > st_out.reserve / cfg.max_out_ratio {
            return Err(Error::MaxOutRatioExceeded);
        }
        let quote = match st_in {
            Some(s) => quote_buy(&s, &st_out, amount, cfg.asset_fee, cfg.protocol_fee),
            None => quote_buy_with_hub(&st_out, amount, cfg.asset_fee),
        };
        let q = match quote {
            Some(q) => q,
            None => return Err(Error::Arithmetic(ArithmeticError::Overflow)),
        };
        if q.amount_in > max_sell_amount {
            return Err(Error::SellLimitExceeded);
        }
        match st_in {
            Some(s) => {
                if q.amount_in > s.reserve / cfg.max_in_ratio {
                    return Err(Error::MaxInRatioExceeded);
                }
            },
            None => {},
        }
        if who_balance < q.amount_in {
            return Err(Error::InsufficientBalance);
        }
        match self.commit_trade(asset_in, asset_out, q) {
            Ok(()) => Ok(q),
            Err(e) => Err(e),
        }
    }

    /// Outcome of `add_token`, decided on the state before the call: the
    /// new asset's hub reserve and the pool's new hub liquidity.
    pub open spec fn add_token_result(
        &self,
        asset: AssetId,
        amount: Balance,
        price: Price,
        weight_cap: Permill,
        owner: AccountId,
        registered: bool,
    ) -> Result<(Balance, Balance), Error> {
        let cfg = self.config_spec();
        if asset == cfg.hub_asset_id || self.assets().contains_key(asset) {
            Err(Error::AssetAlreadyAdded)
        } else if !registered {
            Err(Error::AssetNotRegistered)
        } else if !self.assets().contains_key(cfg.stable_asset_id) {
            Err(Error::NoStableAssetInPool)
        } else if price.inner == 0 {
            Err(Error::InvalidInitialAssetPrice)
        } else if amount == 0 || amount < cfg.min_pool_liquidity {
            Err(Error::MissingBalance)
        } else {
            match hub_value(price, amount) {
                None => Err(Error::Arithmetic(ArithmeticError::Overflow)),
                Some(hub_reserve) => if hub_reserve == 0 {
                    Err(Error::InvalidInitialAssetPrice)
                } else if self.hub_liquidity() + hub_reserve > u128::MAX {
                    Err(Error::Arithmetic(ArithmeticError::Overflow))
                } else {
                    let total = (self.hub_liquidity() + hub_reserve) as u128;
                    let stable = self.assets()[cfg.stable_asset_id];
                    match weight_of(hub_reserve, total) {
                        None => Err(Error::Arithmetic(ArithmeticError::Overflow)),
                        Some(w) => if w > weight_cap.parts * 1_000_000_000_000 {
                            Err(Error::AssetWeightCapExceeded)
                        } else {
                            match checked_ratio(
                                total as int,
                                stable.reserve as int,
                                stable.hub_reserve as int,
                                Rounding::Down,
                            ) {
                                None => Err(Error::Arithmetic(ArithmeticError::Overflow)),
                                Some(tvl) => if tvl > self.tvl_cap_spec() {
                                    Err(Error::TVLCapExceeded)
                                } else if owner != cfg.protocol_account && self.next_position()
                                    == u32::MAX {
                                    Err(Error::Arithmetic(ArithmeticError::Overflow))
                                } else {
                                    Ok((hub_reserve, total))
                                },
                            }
                        },
                    }
                },
            }
        }
    }

    /// Lists `asset` with the `amount` of it that the protocol account
    /// holds, at `price` hub units each. The protocol is the listing's
    /// liquidity provider: it is credited with every share as protocol
    /// shares, whoever `owner` is. When `owner` is not the protocol account,
    /// `owner` gets a position over those shares, whose identifier is
    /// returned; removing liquidity through it draws the protocol's shares
    /// down (see `remove_liquidity_result`). The pool's value in the stable
    /// asset must stay within the TVL cap, and the new asset's weight within
    /// `weight_cap`.
    pub fn add_token(
        &mut self,
        asset: AssetId,
        amount: Balance,
        price: Price,
        weight_cap: Permill,
        owner: AccountId,
        registered: bool,
    ) -> (r: Result<Option<PositionId>, Error>)
        requires
            old(self).wf(),
            weight_cap.wf(),
        ensures
            final(self).wf(),
            match old(self).add_token_result(asset, amount, price, weight_cap, owner, registered) {
                Err(e) => r == Err::<Option<PositionId>, Error>(e) && final(self).unchanged(
                    old(self),
                ),
                Ok((hub_reserve, total)) => {
                    let by_protocol = owner == old(self).config_spec().protocol_account;
                    let st = seeded_state(amount, hub_reserve, weight_cap);
                    &&& final(self).assets() == old(self).assets().insert(asset, st)
                    &&& final(self).hub_liquidity() == total
                    &&& final(self).keeps_settings(old(self))
                    &&& final(self).breaker() == old(self).breaker()
                    &&& final(self).imbalance_spec() == old(self).imbalance_spec()
                    &&& if by_protocol {
                        &&& r == Ok::<Option<PositionId>, Error>(None)
                        &&& final(self).positions() == old(self).positions()
                        &&& final(self).owners() == old(self).owners()
                        &&& final(self).next_position() == old(self).next_position()
                    } else {
                        let id = old(self).next_position();
                        &&& r == Ok::<Option<PositionId>, Error>(Some(id))
                        &&& final(self).positions() == old(self).positions().insert(
                            id,
                            Position {
                                asset_id: asset,
                                amount,
                                shares: amount,
                                price_hub_reserve: hub_reserve,
                                price_reserve: amount,
                            },
                        )
                        &&& final(self).owners() == old(self).owners().insert(id, owner)
                        &&& final(self).next_position() == id + 1
                    }
                },
            },
    {
        let cfg = self.config;
        if asset == cfg.hub_asset_id || self.assets.contains_key(&asset) {
            return Err(Error::AssetAlreadyAdded);
        }
        if !registered {
            return Err(Error::AssetNotRegistered);
        }
        let stable = match self.assets.get(&cfg.stable_asset_id) {
            Some(s) => *s,
            None => return Err(Error::NoStableAssetInPool),
        };
        if price.is_zero() {
            return Err(Error::InvalidInitialAssetPrice);
        }
        if amount == 0 || amount < cfg.min_pool_liquidity {
            return Err(Error::MissingBalance);
        }
        let hub_reserve = match price.checked_mul_int(amount) {
            Some(v) => v,
            None => return Err(Error::Arithmetic(ArithmeticError::Overflow)),
        };
        if hub_reserve == 0 {
            return Err(Error::InvalidInitialAssetPrice);
        }
        let total = match self.hub_asset_liquidity.checked_add(hub_reserve) {
            Some(v) => v,
            None => return Err(Error::Arithmetic(ArithmeticError::Overflow)),
        };
        let weight = match checked_mul_div(hub_reserve, PRICE_ACCURACY, total) {
            Some(v) => v,
            None => return Err(Error::Arithmetic(ArithmeticError::Overflow)),
        };
        if weight > weight_cap.to_price().inner {
            return Err(Error::AssetWeightCapExceeded);
        }
        let tvl = match checked_mul_div(total, stable.reserve, stable.hub_reserve) {
            Some(v) => v,
            None => return Err(Error::Arithmetic(ArithmeticError::Overflow)),
        };
        if tvl > self.tvl_cap {
            return Err(Error::TVLCapExceeded);
        }
        let by_protocol = owner == cfg.protocol_account;
        if !by_protocol && self.next_position_id == u32::MAX {
            return Err(Error::Arithmetic(ArithmeticError::Overflow));
        }
        let st = AssetReserveState {
            reserve: amount,
            hub_reserve,
            shares: amount,
            protocol_shares: amount,
            cap: weight_cap.to_price().inner,
            tradable: Tradability::all_operations(),
        };
        self.assets.insert(asset, st);
        self.hub_asset_liquidity = total;
        proof {
            assert forall|a: AssetId| #[trigger] self.assets().contains_key(a) implies self.assets()[
                a].wf() by {
                if a != asset {
                    assert(old(self).assets().contains_key(a));
                }
            }
        }
        if by_protocol {
            Ok(None)
        } else {
            let id = self.next_position_id;
            self.positions.insert(
                id,
                Position {
                    asset_id: asset,
                    amount,
                    shares: amount,
                    price_hub_reserve: hub_reserve,
                    price_reserve: amount,
                },
            );
            self.position_owners.insert(id, owner);
            self.next_position_id = id + 1;
            Ok(Some(id))
        }
    }

    /// Outcome of `add_liquidity`, decided on the state before the call.
    pub open spec fn add_liquidity_result(&self, who_balance: Balance, asset: AssetId, amount: Balance) -> Result<
        LiquidityAdded,
        Error,
    > {
        let cfg = self.config_spec();
        if amount < cfg.min_pool_liquidity {
            Err(Error::InsufficientLiquidity)
        } else if who_balance < amount {
            Err(Error::InsufficientBalance)
        } else if !self.assets().contains_key(asset) {
            Err(Error::AssetNotFound)
        } else if !self.assets()[asset].tradable.allows(ADD_LIQUIDITY) {
            Err(Error::NotAllowed)
        } else {
            let st = self.assets()[asset];
            match (
                checked_ratio(st.shares as int, amount as int, st.reserve as int, Rounding::Down),
                checked_ratio(st.hub_reserve as int, amount as int, st.reserve as int, Rounding::Down),
            ) {
                (Some(shares), Some(hub)) => if st.reserve + amount > u128::MAX || st.hub_reserve
                    + hub > u128::MAX || st.shares + shares > u128::MAX || self.hub_liquidity()
                    + hub > u128::MAX {
                    Err(Error::Arithmetic(ArithmeticError::Overflow))
                } else {
                    let new_state = AssetReserveState {
                        reserve: (st.reserve + amount) as u128,
                        hub_reserve: (st.hub_reserve + hub) as u128,
                        shares: (st.shares + shares) as u128,
                        ..st
                    };
                    let total = (self.hub_liquidity() + hub) as u128;
                    match weight_of(new_state.hub_reserve, total) {
                        None => Err(Error::Arithmetic(ArithmeticError::Overflow)),
                        Some(w) => if w > st.cap {
                            Err(Error::AssetWeightCapExceeded)
                        } else {
                            match breaker_result(
                                self.breaker(),
                                asset,
                                st.reserve,
                                new_state.reserve,
                            ) {
                                Err(e) => Err(Error::CircuitBreaker(e)),
                                Ok(_) => if self.next_position() == u32::MAX {
                                    Err(Error::Arithmetic(ArithmeticError::Overflow))
                                } else {
                                    Ok(
                                        LiquidityAdded {
                                            state: new_state,
                                            shares,
                                            hub_liquidity: total,
                                        },
                                    )
                                },
                            }
                        },
                    }
                },
                _ => Err(Error::Arithmetic(ArithmeticError::Overflow)),
            }
        }
    }

    /// Adds `amount` of `asset` to the pool, the caller `who` holding
    /// `who_balance` of it. Shares are minted in proportion to the asset's
    /// shares per reserve unit and hub units in proportion to its price,
    /// both rounded down; a position recording them and the deposit price
    /// is minted to `who` and its identifier returned.
    pub fn add_liquidity(&mut self, who: AccountId, who_balance: Balance, asset: AssetId, amount: Balance) -> (r:
        Result<PositionId, Error>)
        requires
            old(self).wf(),
        ensures
            final(self).wf(),
            match old(self).add_liquidity_result(who_balance, asset, amount) {
                Err(e) => r == Err::<PositionId, Error>(e) && final(self).unchanged(old(self)),
                Ok(added) => {
                    let id = old(self).next_position();
                    let st = old(self).assets()[asset];
                    &&& r == Ok::<PositionId, Error>(id)
                    &&& final(self).assets() == old(self).assets().insert(asset, added.state)
                    &&& final(self).hub_liquidity() == added.hub_liquidity
                    &&& final(self).positions() == old(self).positions().insert(
                        id,
                        Position {
                            asset_id: asset,
                            amount,
                            shares: added.shares,
                            price_hub_reserve: st.hub_reserve,
                            price_reserve: st.reserve,
                        },
                    )
                    &&& final(self).owners() == old(self).owners().insert(id, who)
                    &&& final(self).next_position() == id + 1
                    &&& final(self).keeps_settings(old(self))
                    &&& final(self).imbalance_spec() == old(self).imbalance_spec()
                    &&& final(self).breaker().ranges() == old(self).breaker().ranges().insert(
                        asset,
                        old(self).breaker().range_for(asset, st.reserve)->Ok_0,
                    )
                },
            },
    {
        let cfg = self.config;
        if amount < cfg.min_pool_liquidity {
            return Err(Error::InsufficientLiquidity);
        }
        if who_balance < amount {
            return Err(Error::InsufficientBalance);
        }
        let st = match self.assets.get(&asset) {
            Some(s) => *s,
            None => return Err(Error::AssetNotFound),
        };
        if !st.tradable.contains(ADD_LIQUIDITY) {
            return Err(Error::NotAllowed);
        }
        let shares = checked_mul_div(st.shares, amount, st.reserve);
        let hub = checked_mul_div(st.hub_reserve, amount, st.reserve);
        let (shares, hub) = match (shares, hub) {
            (Some(s), Some(h)) => (s, h),
            _ => return Err(Error::Arithmetic(ArithmeticError::Overflow)),
        };
        let (reserve, hub_reserve, total_shares, total) = match (
            st.reserve.checked_add(amount),
            st.hub_reserve.checked_add(hub),
            st.shares.checked_add(shares),
            self.hub_asset_liquidity.checked_add(hub),
        ) {
            (Some(a), Some(b), Some(c), Some(d)) => (a, b, c, d),
            _ => return Err(Error::Arithmetic(ArithmeticError::Overflow)),
        };
        let new_state = AssetReserveState { reserve, hub_reserve, shares: total_shares, ..st };
        let weight = match checked_mul_div(hub_reserve, PRICE_ACCURACY, total) {
            Some(w) => w,
            None => return Err(Error::Arithmetic(ArithmeticError::Overflow)),
        };
        if weight > st.cap {
            return Err(Error::AssetWeightCapExceeded);
        }
        match Self::check_breaker(&self.circuit_breaker, asset, st.reserve, reserve) {
            Ok(_) => {},
            Err(e) => return Err(Error::CircuitBreaker(e)),
        }
        if self.next_position_id == u32::MAX {
            return Err(Error::Arithmetic(ArithmeticError::Overflow));
        }
        let _ = self.circuit_breaker.before_pool_state_change(asset, st.reserve);
        self.assets.insert(asset, new_state);
        self.hub_asset_liquidity = total;
        let id = self.next_position_id;
        self.positions.insert(
            id,
            Position {
                asset_id: asset,
                amount,
                shares,
                price_hub_reserve: st.hub_reserve,
                price_reserve: st.reserve,
            },
        );
        self.position_owners.insert(id, who);
        self.next_position_id = id + 1;
        proof {
            assert forall|a: AssetId| #[trigger] self.assets().contains_key(a) implies self.assets()[
                a].wf() by {
                if a != asset {
                    assert(old(self).assets().contains_key(a));
                }
            }
        }
        Ok(id)
    }

    /// Outcome of `remove_liquidity`, decided on the state before the call.
    ///
    /// With `p` the asset's price now and `p0` the position's deposit price
    /// (both hub units per reserve unit), a removal of `amount` shares goes
    /// as follows. If `p < p0`, the share `(p0 - p) / (p0 + p)` of them,
    /// rounded down, passes to the protocol instead of being paid out. The
    /// rest is worth reserve units in proportion to the asset's reserve per
    /// share, rounded down; the withdrawal fee, rounded up, stays in the
    /// reserve and the remainder is paid. The hub units matching the amount
    /// paid leave the asset, rounded down. If `p > p0`, the share
    /// `(p - p0) / (p + p0)` of those hub units, rounded down, is paid to the
    /// owner too; the remainder is burned, and a negative imbalance shrinks
    /// by it. Shares removed from the asset come out of liquidity providers'
    /// shares first: the protocol's shares, grown by those that passed to
    /// it, are capped by the shares left.
    pub open spec fn remove_liquidity_result(&self, who: AccountId, position_id: PositionId, amount: Balance) -> Result<
        LiquidityRemoved,
        Error,
    > {
        if !self.positions().contains_key(position_id) {
            Err(Error::PositionNotFound)
        } else if !self.owners().contains_key(position_id) || self.owners()[position_id] != who {
            Err(Error::Forbidden)
        } else {
            let pos = self.positions()[position_id];
            if amount > pos.shares {
                Err(Error::InsufficientShares)
            } else if !self.assets().contains_key(pos.asset_id) {
                Err(Error::AssetNotFound)
            } else if !self.assets()[pos.asset_id].tradable.allows(REMOVE_LIQUIDITY) {
                Err(Error::NotAllowed)
            } else {
                let st = self.assets()[pos.asset_id];
                let x = st.hub_reserve * pos.price_reserve;
                let y = pos.price_hub_reserve * st.reserve;
                if x > u128::MAX || y > u128::MAX || x + y > u128::MAX {
                    Err(Error::Arithmetic(ArithmeticError::Overflow))
                } else {
                    let gain = if x < y {
                        checked_ratio(amount as int, y - x, x + y, Rounding::Down)
                    } else {
                        Some(0u128)
                    };
                    match gain {
                        None => Err(Error::Arithmetic(ArithmeticError::Overflow)),
                        Some(gain) => match checked_ratio(
                            st.reserve as int,
                            amount - gain,
                            st.shares as int,
                            Rounding::Down,
                        ) {
                            None => Err(Error::Arithmetic(ArithmeticError::Overflow)),
                            Some(gross) => {
                                let fee = ratio_ceil(
                                    gross as int,
                                    self.config_spec().withdrawal_fee.parts as int,
                                    PERMILL_ACCURACY as int,
                                );
                                let paid = (gross - fee) as u128;
                                match checked_ratio(
                                    st.hub_reserve as int,
                                    paid as int,
                                    st.reserve as int,
                                    Rounding::Down,
                                ) {
                                    None => Err(Error::Arithmetic(ArithmeticError::Overflow)),
                                    Some(delta_hub) => {
                                        let hub_paid = if x > y {
                                            checked_ratio(
                                                delta_hub as int,
                                                x - y,
                                                x + y,
                                                Rounding::Down,
                                            )
                                        } else {
                                            Some(0u128)
                                        };
                                        let reduction = if amount < pos.shares {
                                            checked_ratio(
                                                pos.amount as int,
                                                amount as int,
                                                pos.shares as int,
                                                Rounding::Down,
                                            )
                                        } else {
                                            Some(0u128)
                                        };
                                        if hub_paid is None || reduction is None {
                                            Err(Error::Arithmetic(ArithmeticError::Overflow))
                                        } else if paid >= st.reserve || delta_hub >= st.hub_reserve {
                                            Err(Error::InsufficientLiquidity)
                                        } else if amount - gain > st.shares {
                                            Err(Error::InsufficientShares)
                                        } else if self.hub_liquidity() < delta_hub {
                                            Err(Error::Arithmetic(ArithmeticError::Underflow))
                                        } else {
                                            let shares = st.shares - (amount - gain);
                                            let new_state = AssetReserveState {
                                                reserve: (st.reserve - paid) as u128,
                                                hub_reserve: (st.hub_reserve - delta_hub) as u128,
                                                shares: shares as u128,
                                                protocol_shares: if st.protocol_shares + gain
                                                    >= shares {
                                                    shares as u128
                                                } else {
                                                    (st.protocol_shares + gain) as u128
                                                },
                                                ..st
                                            };
                                            match breaker_result(
                                                self.breaker(),
                                                pos.asset_id,
                                                st.reserve,
                                                new_state.reserve,
                                            ) {
                                                Err(e) => Err(Error::CircuitBreaker(e)),
                                                Ok(_) => Ok(
                                                    LiquidityRemoved {
                                                        state: new_state,
                                                        paid: RemovedLiquidity {
                                                            asset_amount: paid,
                                                            hub_amount: hub_paid->0,
                                                        },
                                                        hub_liquidity: (self.hub_liquidity()
                                                            - delta_hub) as u128,
                                                        burned: (delta_hub - hub_paid->0) as u128,
                                                        amount_reduction: reduction->0,
                                                    },
                                                ),
                                            }
                                        }
                                    },
                                }
                            },
                        },
                    }
                }
            }
        }
    }

    /// Removes `amount` shares of the position `position_id` owned by `who`;
    /// see `remove_liquidity_result` for what is paid. A position left with
    /// no shares is burned; otherwise its shares and, in proportion, its
    /// deposited amount shrink.
    pub fn remove_liquidity(&mut self, who: AccountId, position_id: PositionId, amount: Balance) -> (r:
        Result<RemovedLiquidity, Error>)
        requires
            old(self).wf(),
        ensures
            final(self).wf(),
            match old(self).remove_liquidity_result(who, position_id, amount) {
                Err(e) => r == Err::<RemovedLiquidity, Error>(e) && final(self).unchanged(
                    old(self),
                ),
                Ok(removed) => {
                    let pos = old(self).positions()[position_id];
                    &&& r == Ok::<RemovedLiquidity, Error>(removed.paid)
                    &&& final(self).assets() == old(self).assets().insert(
                        pos.asset_id,
                        removed.state,
                    )
                    &&& final(self).hub_liquidity() == removed.hub_liquidity
                    &&& if amount == pos.shares {
                        &&& final(self).positions() == old(self).positions().remove(position_id)
                        &&& final(self).owners() == old(self).owners().remove(position_id)
                    } else {
                        &&& final(self).positions() == old(self).positions().insert(
                            position_id,
                            Position {
                                shares: (pos.shares - amount) as u128,
                                amount: (pos.amount - removed.amount_reduction) as u128,
                                ..pos
                            },
                        )
                        &&& final(self).owners() == old(self).owners()
                    }
                    &&& final(self).next_position() == old(self).next_position()
                    &&& final(self).keeps_settings(old(self))
                    &&& final(self).imbalance_spec() == imbalance_after_fee(
                        old(self).imbalance_spec(),
                        removed.burned,
                    )
                    &&& final(self).breaker().ranges() == old(self).breaker().ranges().insert(
                        pos.asset_id,
                        old(self).breaker().range_for(pos.asset_id, old(self).assets()[
                            pos.asset_id].reserve)->Ok_0,
                    )
                },
            },
    {
        let pos = match self.positions.get(&position_id) {
            Some(p) => *p,
            None => return Err(Error::PositionNotFound),
        };
        match self.position_owners.get(&position_id) {
            Some(o) => {
                if *o != who {
                    return Err(Error::Forbidden);
                }
            },
            None => return Err(Error::Forbidden),
        }
        if amount > pos.shares {
            return Err(Error::InsufficientShares);
        }
        let asset = pos.asset_id;
        let st = match self.assets.get(&asset) {
            Some(s) => *s,
            None => return Err(Error::AssetNotFound),
        };
        if !st.tradable.contains(REMOVE_LIQUIDITY) {
            return Err(Error::NotAllowed);
        }
        let (x, y) = match (
            st.hub_reserve.checked_mul(pos.price_reserve),
            pos.price_hub_reserve.checked_mul(st.reserve),
        ) {
            (Some(x), Some(y)) => (x, y),
            _ => return Err(Error::Arithmetic(ArithmeticError::Overflow)),
        };
        let sum = match x.checked_add(y) {
            Some(v) => v,
            None => return Err(Error::Arithmetic(ArithmeticError::Overflow)),
        };
        let gain = if x < y {
            match checked_mul_div(amount, y - x, sum) {
                Some(g) => g,
                None => return Err(Error::Arithmetic(ArithmeticError::Overflow)),
            }
        } else {
            0
        };
        proof {
            if x < y {
                crate::math::lemma_ratio_floor_fraction(amount as int, y - x, sum as int);
            }
        }
        let gross = match checked_mul_div(st.reserve, amount - gain, st.shares) {
            Some(v) => v,
            None => return Err(Error::Arithmetic(ArithmeticError::Overflow)),
        };
        let fee = self.config.withdrawal_fee.mul_ceil(gross);
        let paid = gross - fee;
        let delta_hub = match checked_mul_div(st.hub_reserve, paid, st.reserve) {
            Some(v) => v,
            None => return Err(Error::Arithmetic(ArithmeticError::Overflow)),
        };
        let hub_paid = if x > y {
            checked_mul_div(delta_hub, x - y, sum)
        } else {
            Some(0)
        };
        let reduction = if amount < pos.shares {
            checked_mul_div(pos.amount, amount, pos.shares)
        } else {
            Some(0)
        };
        let (hub_paid, reduction) = match (hub_paid, reduction) {
            (Some(h), Some(d)) => (h, d),
            _ => return Err(Error::Arithmetic(ArithmeticError::Overflow)),
        };
        proof {
            if x > y {
                crate::math::lemma_ratio_floor_fraction(delta_hub as int, x - y, sum as int);
            }
        }
        if paid >= st.reserve || delta_hub >= st.hub_reserve {
            return Err(Error::InsufficientLiquidity);
        }
        if amount - gain > st.shares {
            return Err(Error::InsufficientShares);
        }
        if self.hub_asset_liquidity < delta_hub {
            return Err(Error::Arithmetic(ArithmeticError::Underflow));
        }
        let shares = st.shares - (amount - gain);
        let protocol_shares = if gain >= shares || st.protocol_shares >= shares - gain {
            shares
        } else {
            st.protocol_shares + gain
        };
        let new_state = AssetReserveState {
            reserve: st.reserve - paid,
            hub_reserve: st.hub_reserve - delta_hub,
            shares,
            protocol_shares,
            ..st
        };
        let burned = delta_hub - hub_paid;
        match Self::check_breaker(&self.circuit_breaker, asset, st.reserve, new_state.reserve) {
            Ok(_) => {},
            Err(e) => return Err(Error::CircuitBreaker(e)),
        }
        let _ = self.circuit_breaker.before_pool_state_change(asset, st.reserve);
        self.assets.insert(asset, new_state);
        self.hub_asset_liquidity = self.hub_asset_liquidity - delta_hub;
        if self.imbalance.negative {
            self.imbalance = SimpleImbalance {
                value: if burned <= self.imbalance.value {
                    self.imbalance.value - burned
                } else {
                    0
                },
                negative: true,
            };
        }
        if amount == pos.shares {
            self.positions.remove(&position_id);
            self.position_owners.remove(&position_id);
        } else {
            proof {
                crate::math::lemma_ratio_floor_fraction(
                    pos.amount as int,
                    amount as int,
                    pos.shares as int,
                );
                assert(ratio_floor(pos.amount as int, amount as int, pos.shares as int)
                    == ratio_floor(pos.amount as int, amount as int, pos.shares as int));
            }
            self.positions.insert(
                position_id,
                Position { shares: pos.shares - amount, amount: pos.amount - reduction, ..pos },
            );
        }
        proof {
            assert forall|a: AssetId| #[trigger] self.assets().contains_key(a) implies self.assets()[
                a].wf() by {
                if a != asset {
                    assert(old(self).assets().contains_key(a));
                }
            }
        }
        Ok(RemovedLiquidity { asset_amount: paid, hub_amount: hub_paid })
    }

    /// Sets which operations `asset` allows; for the hub asset, which
    /// directions it may be traded in.
    pub fn set_asset_tradable_state(&mut self, asset: AssetId, state: Tradability) -> (r: Result<
        (),
        Error,
    >)
        requires
            old(self).wf(),
        ensures
            final(self).wf(),
            asset == old(self).config_spec().hub_asset_id ==> r is Ok && final(self).hub_tradability()
                == state && final(self).assets() == old(self).assets(),
            asset != old(self).config_spec().hub_asset_id && old(self).assets().contains_key(asset)
                ==> r is Ok && final(self).hub_tradability() == old(self).hub_tradability()
                && final(self).assets() == old(self).assets().insert(
                asset,
                AssetReserveState { tradable: state, ..old(self).assets()[asset] },
            ),
            asset != old(self).config_spec().hub_asset_id && !old(self).assets().contains_key(
                asset,
            ) ==> r == Err::<(), Error>(Error::AssetNotFound) && final(self).unchanged(old(self)),
            final(self).config_spec() == old(self).config_spec(),
            final(self).tvl_cap_spec() == old(self).tvl_cap_spec(),
            final(self).breaker() == old(self).breaker(),
            final(self).positions() == old(self).positions(),
            final(self).owners() == old(self).owners(),
            final(self).next_position() == old(self).next_position(),
            final(self).hub_liquidity() == old(self).hub_liquidity(),
            final(self).imbalance_spec() == old(self).imbalance_spec(),
    {
        if asset == self.config.hub_asset_id {
            self.hub_asset_tradability = state;
            return Ok(());
        }
        let st = match self.assets.get(&asset) {
            Some(s) => *s,
            None => return Err(Error::AssetNotFound),
        };
        self.assets.insert(asset, AssetReserveState { tradable: state, ..st });
        proof {
            assert forall|a: AssetId| #[trigger] self.assets().contains_key(a) implies self.assets()[
                a].wf() by {
                if a != asset {
                    assert(old(self).assets().contains_key(a));
                }
            }
        }
        Ok(())
    }

    /// Sets the largest weight `asset` may reach in the pool.
    pub fn set_asset_weight_cap(&mut self, asset: AssetId, cap: Permill) -> (r: Result<(), Error>)
        requires
            old(self).wf(),
            cap.wf(),
        ensures
            final(self).wf(),
            old(self).assets().contains_key(asset) ==> r is Ok && final(self).assets() == old(
                self,
            ).assets().insert(
                asset,
                AssetReserveState {
                    cap: (cap.parts * 1_000_000_000_000) as u128,
                    ..old(self).assets()[asset]
                },
            ),
            !old(self).assets().contains_key(asset) ==> r == Err::<(), Error>(Error::AssetNotFound)
                && final(self).assets() == old(self).assets(),
            final(self).keeps_settings(old(self)),
            final(self).breaker() == old(self).breaker(),
            final(self).positions() == old(self).positions(),
            final(self).owners() == old(self).owners(),
            final(self).next_position() == old(self).next_position(),
            final(self).hub_liquidity() == old(self).hub_liquidity(),
            final(self).imbalance_spec() == old(self).imbalance_spec(),
    {
        let st = match self.assets.get(&asset) {
            Some(s) => *s,
            None => return Err(Error::AssetNotFound),
        };
        self.assets.insert(asset, AssetReserveState { cap: cap.to_price().inner, ..st });
        proof {
            assert forall|a: AssetId| #[trigger] self.assets().contains_key(a) implies self.assets()[
                a].wf() by {
                if a != asset {
                    assert(old(self).assets().contains_key(a));
                }
            }
        }
        Ok(())
    }

    /// Sets the largest value, in the stable asset, that the pool may hold.
    pub fn set_tvl_cap(&mut self, cap: Balance)
        requires
            old(self).wf(),
        ensures
            final(self).wf(),
            final(self).tvl_cap_spec() == cap,
            final(self).config_spec() == old(self).config_spec(),
            final(self).hub_tradability() == old(self).hub_tradability(),
            final(self).breaker() == old(self).breaker(),
            final(self).assets() == old(self).assets(),
            final(self).positions() == old(self).positions(),
            final(self).owners() == old(self).owners(),
            final(self).next_position() == old(self).next_position(),
            final(self).hub_liquidity() == old(self).hub_liquidity(),
            final(self).imbalance_spec() == old(self).imbalance_spec(),
    {
        self.tvl_cap = cap;
    }

    /// Sets the circuit breaker's trade volume limit of one asset; a zero
    /// limit is refused.
    pub fn set_trade_volume_limit(&mut self, asset: AssetId, limit: Percent) -> (r: Result<
        (),
        Error,
    >)
        requires
            old(self).wf(),
            limit.wf(),
        ensures
            final(self).wf(),
            r == (if limit.parts == 0 {
                Err(Error::CircuitBreaker(circuit_breaker::Error::InvalidTradeVolumeLimit))
            } else {
                Ok(())
            }),
            r is Ok ==> final(self).breaker().limits() == old(self).breaker().limits().insert(
                asset,
                limit,
            ),
            r is Err ==> final(self).breaker().limits() == old(self).breaker().limits(),
            final(self).breaker().ranges() == old(self).breaker().ranges(),
            final(self).breaker().default_limit_spec() == old(self).breaker().default_limit_spec(),
            final(self).config_spec() == old(self).config_spec(),
            final(self).tvl_cap_spec() == old(self).tvl_cap_spec(),
            final(self).hub_tradability() == old(self).hub_tradability(),
            final(self).assets() == old(self).assets(),
            final(self).positions() == old(self).positions(),
            final(self).owners() == old(self).owners(),
            final(self).next_position() == old(self).next_position(),
            final(self).hub_liquidity() == old(self).hub_liquidity(),
            final(self).imbalance_spec() == old(self).imbalance_spec(),
    {
        match self.circuit_breaker.set_trade_volume_limit(asset, limit) {
            Ok(()) => Ok(()),
            Err(e) => Err(Error::CircuitBreaker(e)),
        }
    }

    /// End-of-block hook: clears the circuit breaker's ranges.
    pub fn on_finalize(&mut self)
        requires
            old(self).wf(),
        ensures
            final(self).wf(),
            final(self).breaker().ranges() == Map::<AssetId, LiquidityRange>::empty(),
            final(self).keeps_settings(old(self)),
            final(self).assets() == old(self).assets(),
            final(self).positions() == old(self).positions(),
            final(self).owners() == old(self).owners(),
            final(self).next_position() == old(self).next_position(),
            final(self).hub_liquidity() == old(self).hub_liquidity(),
            final(self).imbalance_spec() == old(self).imbalance_spec(),
    {
        self.circuit_breaker.on_finalize();
    }

    /// Value of the pool's hub liquidity in the stable asset, at the stable
    /// asset's price, rounded down; `None` before the stable asset is listed
    /// or when the value does not fit.
    pub fn total_tvl(&self) -> (r: Option<Balance>)
        ensures
            r == (if self.assets().contains_key(self.config_spec().stable_asset_id) {
                checked_ratio(
                    self.hub_liquidity() as int,
                    self.assets()[self.config_spec().stable_asset_id].reserve as int,
                    self.assets()[self.config_spec().stable_asset_id].hub_reserve as int,
                    Rounding::Down,
                )
            } else {
                None
            }),
    {
        match self.assets.get(&self.config.stable_asset_id) {
            Some(st) => checked_mul_div(self.hub_asset_liquidity, st.reserve, st.hub_reserve),
            None => None,
        }
    }

    /// In a well-formed pool, which every operation keeps well-formed, each
    /// listed asset has a positive reserve and hub reserve and no more
    /// protocol shares than shares.
    pub proof fn lemma_listed_assets_keep_reserves(&self, asset: AssetId)
        requires
            self.wf(),
            self.assets().contains_key(asset),
        ensures
            self.assets()[asset].reserve > 0,
            self.assets()[asset].hub_reserve > 0,
            self.assets()[asset].shares >= self.assets()[asset].protocol_shares,
    {
    }

    pub fn config(&self) -> (r: Config)
        ensures
            r == self.config_spec(),
    {
        self.config
    }

    pub fn asset_state(&self, asset: AssetId) -> (r: Option<AssetReserveState>)
        ensures
            r == (if self.assets().contains_key(asset) {
                Some(self.assets()[asset])
            } else {
                None
            }),
    {
        match self.assets.get(&asset) {
            Some(s) => Some(*s),
            None => None,
        }
    }

    pub fn position(&self, id: PositionId) -> (r: Option<Position>)
        ensures
            r == (if self.positions().contains_key(id) {
                Some(self.positions()[id])
            } else {
                None
            }),
    {
        match self.positions.get(&id) {
            Some(p) => Some(*p),
            None => None,
        }
    }

    pub fn position_owner(&self, id: PositionId) -> (r: Option<AccountId>)
        ensures
            r == (if self.owners().contains_key(id) {
                Some(self.owners()[id])
            } else {
                None
            }),
    {
        match self.position_owners.get(&id) {
            Some(o) => Some(*o),
            None => None,
        }
    }

    pub fn hub_asset_liquidity(&self) -> (r: Balance)
        ensures
            r == self.hub_liquidity(),
    {
        self.hub_asset_liquidity
    }

    pub fn imbalance(&self) -> (r: SimpleImbalance)
        ensures
            r == self.imbalance_spec(),
    {
        self.imbalance
    }

    pub fn tvl_cap(&self) -> (r: Balance)
        ensures
            r == self.tvl_cap_spec(),
    {
        self.tvl_cap
    }

    pub fn hub_asset_tradability(&self) -> (r: Tradability)
        ensures
            r == self.hub_tradability(),
    {
        self.hub_asset_tradability
    }

    pub fn circuit_breaker(&self) -> (r: &Pallet)
        ensures
            *r == self.breaker(),
    {
        &self.circuit_breaker
    }
}

} // verus!
