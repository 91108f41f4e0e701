//! Per-block bounds on how far the liquidity of an asset may move.
//!
//! The first time an asset is touched in a block, a range around its
//! liquidity is fixed from the asset's trade volume limit; every later change
//! in the same block must leave the liquidity inside that range. The ranges
//! are cleared when the block is finalized.

use vstd::prelude::*;
use vstd::std_specs::hash::*;
use std::collections::HashMap;
use crate::arith::{ratio_floor, ArithmeticError, Percent, PERCENT_ACCURACY};
use crate::types::{AssetId, Balance};

verus! {

broadcast use vstd::std_specs::hash::group_hash_axioms;

#[derive(Clone, Copy, Debug, PartialEq, Eq, Structural)]
pub enum Error {
    /// No range was fixed for the asset in this block.
    LiquidityLimitNotStoredForAsset,
    /// The liquidity would fall below the block's range.
    MinTradeVolumePerBlockReached,
    /// The liquidity would rise above the block's range.
    MaxTradeVolumePerBlockReached,
    /// A trade volume limit must be non-zero.
    InvalidTradeVolumeLimit,
    Arithmetic(ArithmeticError),
}

/// Allowed liquidity of an asset for the rest of a block.
#[derive(Clone, Copy, Debug, PartialEq, Eq, Structural)]
pub struct LiquidityRange {
    pub min_limit: Balance,
    pub max_limit: Balance,
}

impl LiquidityRange {
    pub open spec fn contains(self, liquidity: Balance) -> bool {
        self.min_limit <= liquidity <= self.max_limit
    }

    pub fn check_min_limit(&self, liquidity: Balance) -> (r: Result<(), Error>)
        ensures
            r == (if self.min_limit <= liquidity {
                Ok(())
            } else {
                Err(Error::MinTradeVolumePerBlockReached)
            }),
    {
        if self.min_limit <= liquidity {
            Ok(())
        } else {
            Err(Error::MinTradeVolumePerBlockReached)
        }
    }

    pub fn check_max_limit(&self, liquidity: Balance) -> (r: Result<(), Error>)
        ensures
            r == (if liquidity <= self.max_limit {
                Ok(())
            } else {
                Err(Error::MaxTradeVolumePerBlockReached)
            }),
    {
        if self.max_limit >= liquidity {
            Ok(())
        } else {
            Err(Error::MaxTradeVolumePerBlockReached)
        }
    }

    /// Accepts `liquidity` inside the range; below it the minimum is
    /// reported, above it the maximum.
    pub fn check_limits(&self, liquidity: Balance) -> (r: Result<(), Error>)
        ensures
            r == range_check(*self, liquidity),
    {
        match self.check_min_limit(liquidity) {
            Err(e) => return Err(e),
            Ok(()) => {},
        }
        self.check_max_limit(liquidity)
    }
}

/// Outcome of checking `liquidity` against `range`.
pub open spec fn range_check(range: LiquidityRange, liquidity: Balance) -> Result<(), Error> {
    if liquidity < range.min_limit {
        Err(Error::MinTradeVolumePerBlockReached)
    } else if liquidity > range.max_limit {
        Err(Error::MaxTradeVolumePerBlockReached)
    } else {
        Ok(())
    }
}

/// The range fixed for an asset whose liquidity is `initial` when it is
/// first touched in a block: `limit` of it on either side, rounded down.
pub open spec fn range_around(initial: Balance, limit: Percent) -> Result<LiquidityRange, Error> {
    let diff = ratio_floor(initial as int, limit.parts as int, PERCENT_ACCURACY as int);
    if initial + diff > u128::MAX {
        Err(Error::Arithmetic(ArithmeticError::Overflow))
    } else {
        Ok(LiquidityRange { min_limit: (initial - diff) as u128, max_limit: (initial + diff) as u128 })
    }
}

/// A range fixed around `initial` accepts a new liquidity exactly when it
/// differs from `initial` by no more than `limit` of `initial`, rounded down.
pub proof fn lemma_range_accepts_exactly_within_limit(initial: Balance, limit: Percent, updated: Balance)
    requires
        limit.wf(),
        range_around(initial, limit) is Ok,
    ensures
        range_check(range_around(initial, limit)->Ok_0, updated) is Ok <==> {
            let diff = ratio_floor(initial as int, limit.parts as int, PERCENT_ACCURACY as int);
            &&& updated <= initial + diff
            &&& initial <= updated + diff
        },
{
    crate::math::lemma_ratio_floor_fraction(
        initial as int,
        limit.parts as int,
        PERCENT_ACCURACY as int,
    );
}

/// State of the circuit breaker.
pub struct Pallet {
    default_limit: Percent,
    /// Ranges fixed in the current block.
    allowed_liquidity_range: HashMap<AssetId, LiquidityRange>,
    /// Trade volume limits of assets that do not use the default.
    trade_volume_limits: HashMap<AssetId, Percent>,
}

impl Pallet {
    pub closed spec fn default_limit_spec(&self) -> Percent {
        self.default_limit
    }

    /// Ranges fixed in the current block, by asset.
    pub closed spec fn ranges(&self) -> Map<AssetId, LiquidityRange> {
        self.allowed_liquidity_range@
    }

    /// Trade volume limits set for single assets.
    pub closed spec fn limits(&self) -> Map<AssetId, Percent> {
        self.trade_volume_limits@
    }

    pub open spec fn wf(&self) -> bool {
        &&& self.default_limit_spec().wf()
        &&& self.default_limit_spec().parts > 0
        &&& forall|a: AssetId| #[trigger]
            self.limits().contains_key(a) ==> self.limits()[a].wf() && self.limits()[a].parts > 0
    }

    /// The trade volume limit that applies to `asset`.
    pub open spec fn limit_of(&self, asset: AssetId) -> Percent {
        if self.limits().contains_key(asset) {
            self.limits()[asset]
        } else {
            self.default_limit_spec()
        }
    }

    /// The range that a change of `asset` starting from `initial` is held
    /// to: the one fixed earlier in the block, or else a new one.
    pub open spec fn range_for(&self, asset: AssetId, initial: Balance) -> Result<
        LiquidityRange,
        Error,
    > {
        if self.ranges().contains_key(asset) {
            Ok(self.ranges()[asset])
        } else {
            range_around(initial, self.limit_of(asset))
        }
    }

    /// Once the first touch of `asset` in a block has fixed its range, every
    /// later change of the asset in that block is held to that same range,
    /// whatever the asset's liquidity is when the change starts; only the
    /// end-of-block hook clears it.
    pub proof fn lemma_range_fixed_for_the_block(
        &self,
        touched: &Pallet,
        asset: AssetId,
        initial: Balance,
        later_initial: Balance,
    )
        requires
            self.wf(),
            self.range_for(asset, initial) is Ok,
            touched.ranges() == self.ranges().insert(asset, self.range_for(asset, initial)->Ok_0),
            touched.limits() == self.limits(),
        ensures
            touched.range_for(asset, later_initial) == self.range_for(asset, initial),
    {
    }

    /// A circuit breaker with no ranges fixed, whose assets all use
    /// `default_limit`.
    pub fn new(default_limit: Percent) -> (r: Pallet)
        requires
            default_limit.wf(),
            default_limit.parts > 0,
        ensures
            r.wf(),
            r.default_limit_spec() == default_limit,
            r.ranges() == Map::<AssetId, LiquidityRange>::empty(),
            r.limits() == Map::<AssetId, Percent>::empty(),
    {
        Pallet {
            default_limit,
            allowed_liquidity_range: HashMap::new(),
            trade_volume_limits: HashMap::new(),
        }
    }

    /// The limit that assets without one of their own use.
    #[allow(non_snake_case)]
    pub fn DefaultTradeVolumeLimit(&self) -> (r: Percent)
        ensures
            r == self.default_limit_spec(),
    {
        self.default_limit
    }

    pub fn trade_volume_limit_per_asset(&self, asset: AssetId) -> (r: Percent)
        requires
            self.wf(),
        ensures
            r == self.limit_of(asset),
            r.wf(),
            r.parts > 0,
    {
        match self.trade_volume_limits.get(&asset) {
            Some(p) => *p,
            None => self.default_limit,
        }
    }

    pub fn allowed_liquidity_range_per_asset(&self, asset: AssetId) -> (r: Option<LiquidityRange>)
        ensures
            r == (if self.ranges().contains_key(asset) {
                Some(self.ranges()[asset])
            } else {
                None
            }),
    {
        match self.allowed_liquidity_range.get(&asset) {
            Some(r) => Some(*r),
            None => None,
        }
    }

    /// Sets the trade volume limit of one asset; a zero limit is refused.
    pub fn set_trade_volume_limit(&mut self, asset: AssetId, limit: Percent) -> (r: Result<(), Error>)
        requires
            old(self).wf(),
            limit.wf(),
        ensures
            final(self).wf(),
            r == (if limit.parts == 0 {
                Err(Error::InvalidTradeVolumeLimit)
            } else {
                Ok(())
            }),
            r is Ok ==> final(self).limits() == old(self).limits().insert(asset, limit),
            r is Err ==> final(self).limits() == old(self).limits(),
            final(self).ranges() == old(self).ranges(),
            final(self).default_limit_spec() == old(self).default_limit_spec(),
    {
        if limit.is_zero() {
            return Err(Error::InvalidTradeVolumeLimit);
        }
        self.trade_volume_limits.insert(asset, limit);
        proof {
            assert forall|a: AssetId| #[trigger] self.limits().contains_key(a) implies self.limits()[
                a].wf() && self.limits()[a].parts > 0 by {
                if a != asset {
                    assert(old(self).limits().contains_key(a));
                }
            }
        }
        Ok(())
    }

    /// The range for a change of `asset` from `initial`, without fixing it.
    pub fn liquidity_range_for(&self, asset: AssetId, initial: Balance) -> (r: Result<
        LiquidityRange,
        Error,
    >)
        requires
            self.wf(),
        ensures
            r == self.range_for(asset, initial),
    {
        match self.allowed_liquidity_range.get(&asset) {
            Some(r) => Ok(*r),
            None => {
                let limit = self.trade_volume_limit_per_asset(asset);
                let diff = limit.mul_floor(initial);
                match initial.checked_add(diff) {
                    Some(max_limit) => Ok(LiquidityRange { min_limit: initial - diff, max_limit }),
                    None => Err(Error::Arithmetic(ArithmeticError::Overflow)),
                }
            },
        }
    }

    fn calculate_and_store_liquidity_limits(&mut self, asset: AssetId, initial: Balance) -> (r:
        Result<(), Error>)
        requires
            old(self).wf(),
        ensures
            final(self).wf(),
            final(self).limits() == old(self).limits(),
            final(self).default_limit_spec() == old(self).default_limit_spec(),
            match old(self).range_for(asset, initial) {
                Ok(range) => r is Ok && final(self).ranges() == old(self).ranges().insert(
                    asset,
                    range,
                ),
                Err(e) => r == Err::<(), Error>(e) && final(self).ranges() == old(self).ranges(),
            },
    {
        if self.allowed_liquidity_range.contains_key(&asset) {
            proof {
                assert(old(self).ranges().insert(asset, old(self).ranges()[asset]) =~= old(
                    self,
                ).ranges());
            }
            return Ok(());
        }
        match self.liquidity_range_for(asset, initial) {
            Ok(range) => {
                self.allowed_liquidity_range.insert(asset, range);
                Ok(())
            },
            Err(e) => Err(e),
        }
    }

    fn ensure_liquidity_limits(&self, asset: AssetId, updated: Balance) -> (r: Result<(), Error>)
        ensures
            r == (if self.ranges().contains_key(asset) {
                range_check(self.ranges()[asset], updated)
            } else {
                Err(Error::LiquidityLimitNotStoredForAsset)
            }),
    {
        match self.allowed_liquidity_range.get(&asset) {
            Some(range) => range.check_limits(updated),
            None => Err(Error::LiquidityLimitNotStoredForAsset),
        }
    }

    /// Hook run before the liquidity of `asset` changes: fixes the asset's
    /// range on its first touch in the block and leaves it alone after that.
    pub fn before_pool_state_change(&mut self, asset: AssetId, initial: Balance) -> (r: Result<
        (),
        Error,
    >)
        requires
            old(self).wf(),
        ensures
            final(self).wf(),
            final(self).limits() == old(self).limits(),
            final(self).default_limit_spec() == old(self).default_limit_spec(),
            match old(self).range_for(asset, initial) {
                Ok(range) => r is Ok && final(self).ranges() == old(self).ranges().insert(
                    asset,
                    range,
                ),
                Err(e) => r == Err::<(), Error>(e) && final(self).ranges() == old(self).ranges(),
            },
            old(self).ranges().contains_key(asset) ==> final(self).ranges() == old(self).ranges(),
    {
        let r = self.calculate_and_store_liquidity_limits(asset, initial);
        proof {
            if old(self).ranges().contains_key(asset) {
                assert(old(self).ranges().insert(asset, old(self).ranges()[asset]) =~= old(
                    self,
                ).ranges());
            }
        }
        r
    }

    /// Hook run after the liquidity of `asset` changed to `updated`: accepts
    /// it exactly when it lies in the range fixed for the asset this block.
    pub fn after_pool_state_change(&self, asset: AssetId, updated: Balance) -> (r: Result<
        (),
        Error,
    >)
        ensures
            r == (if self.ranges().contains_key(asset) {
                range_check(self.ranges()[asset], updated)
            } else {
                Err(Error::LiquidityLimitNotStoredForAsset)
            }),
    {
        self.ensure_liquidity_limits(asset, updated)
    }

    /// End-of-block hook: forgets every range, whether or not one was fixed.
    pub fn on_finalize(&mut self)
        requires
            old(self).wf(),
        ensures
            final(self).wf(),
            final(self).ranges() == Map::<AssetId, LiquidityRange>::empty(),
            final(self).limits() == old(self).limits(),
            final(self).default_limit_spec() == old(self).default_limit_spec(),
    {
        self.allowed_liquidity_range.clear();
        assert(self.limits() == old(self).limits());
    }
}

} // verus!
