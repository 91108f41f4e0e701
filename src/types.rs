//! Records of the asset reserve ledger: per-asset state, tradability flags,
//! the pool-wide imbalance and liquidity positions.

use vstd::prelude::*;

verus! {

pub type AssetId = u32;

pub type Balance = u128;

pub type AccountId = u64;

pub type PositionId = u32;

/// Selling the asset into the pool is permitted.
pub const SELL: u8 = 1;

/// Buying the asset out of the pool is permitted.
pub const BUY: u8 = 2;

/// Adding liquidity of the asset is permitted.
pub const ADD_LIQUIDITY: u8 = 4;

/// Removing liquidity of the asset is permitted.
pub const REMOVE_LIQUIDITY: u8 = 8;

/// The asset is frozen.
pub const FROZEN: u8 = 16;

/// A set of capability flags that governs which operations an asset allows.
#[derive(Clone, Copy, Debug, PartialEq, Eq, Structural)]
pub struct Tradability {
    pub bits: u8,
}

impl Tradability {
    pub open spec fn allows(self, flag: u8) -> bool {
        self.bits & flag == flag
    }

    pub fn from_bits(bits: u8) -> (r: Tradability)
        ensures
            r.bits == bits,
    {
        Tradability { bits }
    }

    /// Every operation allowed, not frozen.
    pub fn all_operations() -> (r: Tradability)
        ensures
            r.bits == SELL | BUY | ADD_LIQUIDITY | REMOVE_LIQUIDITY,
    {
        Tradability { bits: SELL | BUY | ADD_LIQUIDITY | REMOVE_LIQUIDITY }
    }

    pub fn contains(&self, flag: u8) -> (r: bool)
        ensures
            r == self.allows(flag),
    {
        self.bits & flag == flag
    }
}

/// State of one listed asset.
#[derive(Clone, Copy, Debug, PartialEq, Eq, Structural)]
pub struct AssetReserveState {
    /// Units of the asset held by the pool.
    pub reserve: Balance,
    /// Hub-asset units backing the asset's liquidity.
    pub hub_reserve: Balance,
    /// Ownership units issued against the asset's liquidity.
    pub shares: Balance,
    /// Part of `shares` owned by the protocol.
    pub protocol_shares: Balance,
    /// Largest allowed weight of the asset in the pool, as an 18-decimal
    /// fraction of the total hub-asset liquidity.
    pub cap: u128,
    pub tradable: Tradability,
}

impl AssetReserveState {
    /// The ledger's invariant for a listed asset.
    pub open spec fn wf(self) -> bool {
        &&& self.reserve > 0
        &&& self.hub_reserve > 0
        &&& self.shares >= self.protocol_shares
    }
}

/// A signed amount of hub asset kept as a sign and a magnitude.
#[derive(Clone, Copy, Debug, PartialEq, Eq, Structural)]
pub struct SimpleImbalance {
    pub value: Balance,
    pub negative: bool,
}

impl SimpleImbalance {
    /// No imbalance: zero, counted as negative.
    pub fn zero() -> (r: SimpleImbalance)
        ensures
            r.value == 0,
            r.negative,
    {
        SimpleImbalance { value: 0, negative: true }
    }

    /// The imbalance as a signed number.
    pub open spec fn signed(self) -> int {
        if self.negative {
            -(self.value as int)
        } else {
            self.value as int
        }
    }
}

/// A record of one provision of liquidity.
#[derive(Clone, Copy, Debug, PartialEq, Eq, Structural)]
pub struct Position {
    pub asset_id: AssetId,
    /// Units of the asset deposited.
    pub amount: Balance,
    /// Ownership units granted.
    pub shares: Balance,
    /// Hub reserve of the asset at the time of deposit: the numerator of the
    /// deposit price.
    pub price_hub_reserve: Balance,
    /// Reserve of the asset at the time of deposit: the denominator of the
    /// deposit price.
    pub price_reserve: Balance,
}

} // verus!
