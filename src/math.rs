//! Trade math of one asset's curve against the hub asset, and the quotes of
//! whole trades built from it.

use vstd::prelude::*;
use vstd::arithmetic::div_mod::lemma_fundamental_div_mod;
use crate::arith::{
    checked_mul_div, checked_mul_div_ceil, checked_ratio, ratio_ceil, ratio_floor,
    Permill, Rounding, PERMILL_ACCURACY,
};
use crate::types::{AssetReserveState, Balance};

verus! {

/// The asset state with its reserve and hub reserve replaced.
pub open spec fn with_reserves(st: AssetReserveState, reserve: u128, hub_reserve: u128) -> AssetReserveState {
    AssetReserveState { reserve, hub_reserve, ..st }
}

/// Hub units that leave the curve when `amount` of the asset is sold into it.
pub open spec fn sell_hub_release(st: AssetReserveState, amount: u128) -> Option<u128> {
    if st.reserve + amount <= u128::MAX {
        checked_ratio(st.hub_reserve as int, amount as int, st.reserve + amount, Rounding::Down)
    } else {
        None
    }
}

/// Units of the asset that leave the curve, before any fee, when `delta_hub`
/// hub units are sold into it.
pub open spec fn sell_asset_release(st: AssetReserveState, delta_hub: u128) -> Option<u128> {
    if st.hub_reserve + delta_hub <= u128::MAX {
        checked_ratio(st.reserve as int, delta_hub as int, st.hub_reserve + delta_hub, Rounding::Down)
    } else {
        None
    }
}

/// Hub units the curve takes in, rounded up, to release `amount` of the asset.
pub open spec fn buy_hub_required(st: AssetReserveState, amount: u128) -> Option<u128> {
    if amount < st.reserve {
        checked_ratio(st.hub_reserve as int, amount as int, st.reserve - amount, Rounding::Up)
    } else {
        None
    }
}

/// Units of the asset the curve takes in, rounded up, to release `delta_hub`
/// hub units.
pub open spec fn buy_asset_required(st: AssetReserveState, delta_hub: u128) -> Option<u128> {
    if delta_hub < st.hub_reserve {
        checked_ratio(st.reserve as int, delta_hub as int, st.hub_reserve - delta_hub, Rounding::Up)
    } else {
        None
    }
}

pub fn calculate_sell_hub_release(st: &AssetReserveState, amount: u128) -> (r: Option<u128>)
    ensures
        r == sell_hub_release(*st, amount),
{
    match st.reserve.checked_add(amount) {
        Some(d) => checked_mul_div(st.hub_reserve, amount, d),
        None => None,
    }
}

pub fn calculate_sell_asset_release(st: &AssetReserveState, delta_hub: u128) -> (r: Option<u128>)
    ensures
        r == sell_asset_release(*st, delta_hub),
{
    match st.hub_reserve.checked_add(delta_hub) {
        Some(d) => checked_mul_div(st.reserve, delta_hub, d),
        None => None,
    }
}

pub fn calculate_buy_hub_required(st: &AssetReserveState, amount: u128) -> (r: Option<u128>)
    ensures
        r == buy_hub_required(*st, amount),
{
    if amount < st.reserve {
        checked_mul_div_ceil(st.hub_reserve, amount, st.reserve - amount)
    } else {
        None
    }
}

pub fn calculate_buy_asset_required(st: &AssetReserveState, delta_hub: u128) -> (r: Option<u128>)
    ensures
        r == buy_asset_required(*st, delta_hub),
{
    if delta_hub < st.hub_reserve {
        checked_mul_div_ceil(st.reserve, delta_hub, st.hub_reserve - delta_hub)
    } else {
        None
    }
}

/// What a trade moves, and the states it leaves its two assets in.
#[derive(Clone, Copy, Debug, PartialEq, Eq, Structural)]
pub struct TradeQuote {
    /// Units the trader pays in (hub units when the hub asset is sold).
    pub amount_in: Balance,
    /// Units the trader receives.
    pub amount_out: Balance,
    /// Hub units that leave the curve of the asset sold, zero when the hub
    /// asset itself is sold.
    pub hub_released: Balance,
    /// Hub units that enter the curve of the asset bought.
    pub hub_received: Balance,
    /// Hub units withheld as protocol fee.
    pub protocol_fee: Balance,
    /// For a trade paid in hub units, the amount by which it moves the
    /// pool's imbalance towards negative; zero otherwise.
    pub hub_imbalance: Balance,
    /// New state of the asset sold; unchanged when the hub asset is sold.
    pub asset_in: AssetReserveState,
    /// New state of the asset bought.
    pub asset_out: AssetReserveState,
}

/// Output leg shared by every trade: `delta_hub` hub units enter the curve of
/// `st_out` and the asset fee is kept in the pool, rounded in its favour.
pub open spec fn sell_out_leg(st_out: AssetReserveState, delta_hub: u128, asset_fee: Permill) -> Option<
    (u128, AssetReserveState),
> {
    match sell_asset_release(st_out, delta_hub) {
        None => None,
        Some(gross) => {
            let net = ratio_floor(
                gross as int,
                PERMILL_ACCURACY - asset_fee.parts,
                PERMILL_ACCURACY as int,
            ) as u128;
            Some(
                (
                    net,
                    with_reserves(
                        st_out,
                        (st_out.reserve - net) as u128,
                        (st_out.hub_reserve + delta_hub) as u128,
                    ),
                ),
            )
        },
    }
}

/// Selling `amount` of one ordinary asset for another: the first leg releases
/// hub units from the curve of `st_in`, the protocol fee is withheld from
/// them, and the rest is sold into the curve of `st_out`.
pub open spec fn sell_quote(
    st_in: AssetReserveState,
    st_out: AssetReserveState,
    amount: u128,
    asset_fee: Permill,
    protocol_fee: Permill,
) -> Option<TradeQuote> {
    match sell_hub_release(st_in, amount) {
        None => None,
        Some(released) => {
            let fee = ratio_floor(
                released as int,
                protocol_fee.parts as int,
                PERMILL_ACCURACY as int,
            ) as u128;
            let received = (released - fee) as u128;
            match sell_out_leg(st_out, received, asset_fee) {
                None => None,
                Some((net, new_out)) => Some(
                    TradeQuote {
                        amount_in: amount,
                        amount_out: net,
                        hub_released: released,
                        hub_received: received,
                        protocol_fee: fee,
                        hub_imbalance: 0,
                        asset_in: with_reserves(
                            st_in,
                            (st_in.reserve + amount) as u128,
                            (st_in.hub_reserve - released) as u128,
                        ),
                        asset_out: new_out,
                    },
                ),
            }
        },
    }
}

/// How far `delta_hub` hub units paid into the curve of `st_out` move the
/// imbalance towards negative: the hub units themselves plus their value
/// at the curve's hub reserve, `delta_hub * Q / (Q + delta_hub)` rounded down.
pub open spec fn hub_imbalance_of(st_out: AssetReserveState, delta_hub: u128) -> Option<u128> {
    if st_out.hub_reserve + delta_hub > u128::MAX {
        None
    } else {
        match checked_ratio(
            st_out.hub_reserve as int,
            delta_hub as int,
            st_out.hub_reserve + delta_hub,
            Rounding::Down,
        ) {
            None => None,
            Some(t) => if delta_hub + t > u128::MAX {
                None
            } else {
                Some((delta_hub + t) as u128)
            },
        }
    }
}

/// Selling `amount` hub units for an ordinary asset: one leg, no protocol fee.
pub open spec fn sell_hub_quote(st_out: AssetReserveState, amount: u128, asset_fee: Permill) -> Option<
    TradeQuote,
> {
    match (sell_out_leg(st_out, amount, asset_fee), hub_imbalance_of(st_out, amount)) {
        (Some((net, new_out)), Some(imbalance)) => Some(
            TradeQuote {
                amount_in: amount,
                amount_out: net,
                hub_released: 0,
                hub_received: amount,
                protocol_fee: 0,
                hub_imbalance: imbalance,
                asset_in: st_out,
                asset_out: new_out,
            },
        ),
        _ => None,
    }
}

/// Units that must leave the curve of `st_out` so that `amount` remains once
/// the asset fee is kept, and the hub units that the curve takes for them.
pub open spec fn buy_out_leg(st_out: AssetReserveState, amount: u128, asset_fee: Permill) -> Option<
    (u128, AssetReserveState),
> {
    match checked_ratio(
        amount as int,
        PERMILL_ACCURACY as int,
        PERMILL_ACCURACY - asset_fee.parts,
        Rounding::Up,
    ) {
        None => None,
        Some(gross) => match buy_hub_required(st_out, gross) {
            None => None,
            Some(delta_hub) => if st_out.hub_reserve + delta_hub <= u128::MAX {
                Some(
                    (
                        delta_hub,
                        with_reserves(
                            st_out,
                            (st_out.reserve - amount) as u128,
                            (st_out.hub_reserve + delta_hub) as u128,
                        ),
                    ),
                )
            } else {
                None
            },
        },
    }
}

/// Buying `amount` of one ordinary asset with another: the dual of
/// `sell_quote`, every division rounded up in the pool's favour.
pub open spec fn buy_quote(
    st_in: AssetReserveState,
    st_out: AssetReserveState,
    amount: u128,
    asset_fee: Permill,
    protocol_fee: Permill,
) -> Option<TradeQuote> {
    match buy_out_leg(st_out, amount, asset_fee) {
        None => None,
        Some((received, new_out)) => match checked_ratio(
            received as int,
            PERMILL_ACCURACY as int,
            PERMILL_ACCURACY - protocol_fee.parts,
            Rounding::Up,
        ) {
            None => None,
            Some(released) => match buy_asset_required(st_in, released) {
                None => None,
                Some(amount_in) => if st_in.reserve + amount_in <= u128::MAX {
                    Some(
                        TradeQuote {
                            amount_in,
                            amount_out: amount,
                            hub_released: released,
                            hub_received: received,
                            protocol_fee: (released - received) as u128,
                            hub_imbalance: 0,
                            asset_in: with_reserves(
                                st_in,
                                (st_in.reserve + amount_in) as u128,
                                (st_in.hub_reserve - released) as u128,
                            ),
                            asset_out: new_out,
                        },
                    )
                } else {
                    None
                },
            },
        },
    }
}

/// Buying `amount` of an ordinary asset with hub units: one leg, no
/// protocol fee.
pub open spec fn buy_with_hub_quote(st_out: AssetReserveState, amount: u128, asset_fee: Permill) -> Option<
    TradeQuote,
> {
    match buy_out_leg(st_out, amount, asset_fee) {
        None => None,
        Some((received, new_out)) => match hub_imbalance_of(st_out, received) {
            None => None,
            Some(imbalance) => Some(
                TradeQuote {
                    amount_in: received,
                    amount_out: amount,
                    hub_released: 0,
                    hub_received: received,
                    protocol_fee: 0,
                    hub_imbalance: imbalance,
                    asset_in: st_out,
                    asset_out: new_out,
                },
            ),
        },
    }
}

/// A rounded-down ratio with a multiplier below the divisor stays below the
/// multiplicand.
pub proof fn lemma_ratio_floor_below(a: int, b: int, c: int)
    requires
        a > 0,
        0 <= b < c,
    ensures
        0 <= ratio_floor(a, b, c) < a,
{
    lemma_fundamental_div_mod(a * b, c);
    assert(0 <= a * b < a * c) by (nonlinear_arith)
        requires
            a > 0,
            0 <= b < c,
    ;
    assert(0 <= (a * b) / c < a) by (nonlinear_arith)
        requires
            a * b == c * ((a * b) / c) + (a * b) % c,
            0 <= (a * b) % c < c,
            0 <= a * b < a * c,
            c > 0,
    ;
}

/// A rounded-down fraction no larger than one whole does not exceed the
/// amount it is taken of.
pub proof fn lemma_ratio_floor_fraction(a: int, p: int, d: int)
    requires
        a >= 0,
        0 <= p <= d,
        d > 0,
    ensures
        0 <= ratio_floor(a, p, d) <= a,
{
    lemma_fundamental_div_mod(a * p, d);
    assert(0 <= a * p <= a * d) by (nonlinear_arith)
        requires
            a >= 0,
            0 <= p <= d,
    ;
    assert(0 <= (a * p) / d <= a) by (nonlinear_arith)
        requires
            a * p == d * ((a * p) / d) + (a * p) % d,
            0 <= (a * p) % d < d,
            0 <= a * p <= a * d,
            d > 0,
    ;
}

/// Scaling up by `d / e >= 1` and rounding up never gives less.
pub proof fn lemma_ratio_ceil_at_least(a: int, d: int, e: int)
    requires
        a >= 0,
        0 < e <= d,
    ensures
        ratio_ceil(a, d, e) >= a,
{
    lemma_fundamental_div_mod(a * d + e - 1, e);
    assert(a * d >= a * e) by (nonlinear_arith)
        requires
            a >= 0,
            0 < e <= d,
    ;
    assert((a * d + e - 1) / e >= a) by (nonlinear_arith)
        requires
            a * d + e - 1 == e * ((a * d + e - 1) / e) + (a * d + e - 1) % e,
            0 <= (a * d + e - 1) % e < e,
            a * d >= a * e,
            e > 0,
    ;
}

fn quote_out_leg(st_out: &AssetReserveState, delta_hub: u128, asset_fee: Permill) -> (r: Option<
    (u128, AssetReserveState),
>)
    requires
        st_out.wf(),
        asset_fee.wf(),
    ensures
        r == sell_out_leg(*st_out, delta_hub, asset_fee),
        r matches Some((_, st)) ==> st.wf(),
{
    let gross = match calculate_sell_asset_release(st_out, delta_hub) {
        Some(v) => v,
        None => return None,
    };
    proof {
        lemma_ratio_floor_below(
            st_out.reserve as int,
            delta_hub as int,
            st_out.hub_reserve + delta_hub,
        );
    }
    let net = asset_fee.complement().mul_floor(gross);
    Some((net, AssetReserveState { reserve: st_out.reserve - net, hub_reserve: st_out.hub_reserve + delta_hub, ..*st_out }))
}

/// Quote of selling `amount` of one ordinary asset for another.
pub fn quote_sell(
    st_in: &AssetReserveState,
    st_out: &AssetReserveState,
    amount: u128,
    asset_fee: Permill,
    protocol_fee: Permill,
) -> (r: Option<TradeQuote>)
    requires
        st_in.wf(),
        st_out.wf(),
        asset_fee.wf(),
        protocol_fee.wf(),
    ensures
        r == sell_quote(*st_in, *st_out, amount, asset_fee, protocol_fee),
        r matches Some(q) ==> q.asset_in.wf() && q.asset_out.wf(),
{
    let released = match calculate_sell_hub_release(st_in, amount) {
        Some(v) => v,
        None => return None,
    };
    proof {
        lemma_ratio_floor_below(st_in.hub_reserve as int, amount as int, st_in.reserve + amount);
    }
    let fee = protocol_fee.mul_floor(released);
    let received = released - fee;
    match quote_out_leg(st_out, received, asset_fee) {
        None => None,
        Some((net, new_out)) => Some(
            TradeQuote {
                amount_in: amount,
                amount_out: net,
                hub_released: released,
                hub_received: received,
                protocol_fee: fee,
                hub_imbalance: 0,
                asset_in: AssetReserveState {
                    reserve: st_in.reserve + amount,
                    hub_reserve: st_in.hub_reserve - released,
                    ..*st_in
                },
                asset_out: new_out,
            },
        ),
    }
}

fn calculate_hub_imbalance(st_out: &AssetReserveState, delta_hub: u128) -> (r: Option<u128>)
    ensures
        r == hub_imbalance_of(*st_out, delta_hub),
{
    let total = match st_out.hub_reserve.checked_add(delta_hub) {
        Some(t) => t,
        None => return None,
    };
    match checked_mul_div(st_out.hub_reserve, delta_hub, total) {
        None => None,
        Some(t) => delta_hub.checked_add(t),
    }
}

/// Quote of selling `amount` hub units for an ordinary asset.
pub fn quote_sell_hub(st_out: &AssetReserveState, amount: u128, asset_fee: Permill) -> (r: Option<
    TradeQuote,
>)
    requires
        st_out.wf(),
        asset_fee.wf(),
    ensures
        r == sell_hub_quote(*st_out, amount, asset_fee),
        r matches Some(q) ==> q.asset_in.wf() && q.asset_out.wf(),
{
    match (quote_out_leg(st_out, amount, asset_fee), calculate_hub_imbalance(st_out, amount)) {
        (Some((net, new_out)), Some(imbalance)) => Some(
            TradeQuote {
                amount_in: amount,
                amount_out: net,
                hub_released: 0,
                hub_received: amount,
                protocol_fee: 0,
                hub_imbalance: imbalance,
                asset_in: *st_out,
                asset_out: new_out,
            },
        ),
        _ => None,
    }
}

fn quote_buy_out_leg(st_out: &AssetReserveState, amount: u128, asset_fee: Permill) -> (r: Option<
    (u128, AssetReserveState),
>)
    requires
        st_out.wf(),
        asset_fee.wf(),
    ensures
        r == buy_out_leg(*st_out, amount, asset_fee),
        r matches Some((_, st)) ==> st.wf(),
{
    let gross = match checked_mul_div_ceil(
        amount,
        PERMILL_ACCURACY as u128,
        (PERMILL_ACCURACY - asset_fee.parts) as u128,
    ) {
        Some(v) => v,
        None => return None,
    };
    let delta_hub = match calculate_buy_hub_required(st_out, gross) {
        Some(v) => v,
        None => return None,
    };
    proof {
        lemma_ratio_ceil_at_least(
            amount as int,
            PERMILL_ACCURACY as int,
            PERMILL_ACCURACY - asset_fee.parts,
        );
    }
    match st_out.hub_reserve.checked_add(delta_hub) {
        None => None,
        Some(hub) => Some((delta_hub, AssetReserveState { reserve: st_out.reserve - amount, hub_reserve: hub, ..*st_out })),
    }
}

/// Quote of buying `amount` of one ordinary asset with another.
pub fn quote_buy(
    st_in: &AssetReserveState,
    st_out: &AssetReserveState,
    amount: u128,
    asset_fee: Permill,
    protocol_fee: Permill,
) -> (r: Option<TradeQuote>)
    requires
        st_in.wf(),
        st_out.wf(),
        asset_fee.wf(),
        protocol_fee.wf(),
    ensures
        r == buy_quote(*st_in, *st_out, amount, asset_fee, protocol_fee),
        r matches Some(q) ==> q.asset_in.wf() && q.asset_out.wf(),
{
    let (received, new_out) = match quote_buy_out_leg(st_out, amount, asset_fee) {
        Some(v) => v,
        None => return None,
    };
    let released = match checked_mul_div_ceil(
        received,
        PERMILL_ACCURACY as u128,
        (PERMILL_ACCURACY - protocol_fee.parts) as u128,
    ) {
        Some(v) => v,
        None => return None,
    };
    proof {
        lemma_ratio_ceil_at_least(
            received as int,
            PERMILL_ACCURACY as int,
            PERMILL_ACCURACY - protocol_fee.parts,
        );
    }
    let amount_in = match calculate_buy_asset_required(st_in, released) {
        Some(v) => v,
        None => return None,
    };
    match st_in.reserve.checked_add(amount_in) {
        None => None,
        Some(reserve) => Some(
            TradeQuote {
                amount_in,
                amount_out: amount,
                hub_released: released,
                hub_received: received,
                protocol_fee: released - received,
                hub_imbalance: 0,
                asset_in: AssetReserveState {
                    reserve,
                    hub_reserve: st_in.hub_reserve - released,
                    ..*st_in
                },
                asset_out: new_out,
            },
        ),
    }
}

/// Quote of buying `amount` of an ordinary asset with hub units.
pub fn quote_buy_with_hub(st_out: &AssetReserveState, amount: u128, asset_fee: Permill) -> (r:
    Option<TradeQuote>)
    requires
        st_out.wf(),
        asset_fee.wf(),
    ensures
        r == buy_with_hub_quote(*st_out, amount, asset_fee),
        r matches Some(q) ==> q.asset_in.wf() && q.asset_out.wf(),
{
    match quote_buy_out_leg(st_out, amount, asset_fee) {
        None => None,
        Some((received, new_out)) => match calculate_hub_imbalance(st_out, received) {
            None => None,
            Some(imbalance) => Some(
                TradeQuote {
                    amount_in: received,
                    amount_out: amount,
                    hub_released: 0,
                    hub_received: received,
                    protocol_fee: 0,
                    hub_imbalance: imbalance,
                    asset_in: *st_out,
                    asset_out: new_out,
                },
            ),
        },
    }
}

proof fn lemma_floor_times_divisor(a: int, b: int, c: int)
    requires
        a * b >= 0,
        c > 0,
    ensures
        ratio_floor(a, b, c) * c <= a * b,
        ratio_floor(a, b, c) >= 0,
{
    lemma_fundamental_div_mod(a * b, c);
    assert(ratio_floor(a, b, c) * c <= a * b && ratio_floor(a, b, c) >= 0) by (nonlinear_arith)
        requires
            a * b == c * ((a * b) / c) + (a * b) % c,
            0 <= (a * b) % c < c,
            a * b >= 0,
            ratio_floor(a, b, c) == (a * b) / c,
            c > 0,
    ;
}

proof fn lemma_ceil_times_divisor(a: int, b: int, c: int)
    requires
        a * b >= 0,
        c > 0,
    ensures
        ratio_ceil(a, b, c) * c >= a * b,
{
    lemma_fundamental_div_mod(a * b + c - 1, c);
    assert(ratio_ceil(a, b, c) * c >= a * b) by (nonlinear_arith)
        requires
            a * b + c - 1 == c * ((a * b + c - 1) / c) + (a * b + c - 1) % c,
            0 <= (a * b + c - 1) % c < c,
            ratio_ceil(a, b, c) == (a * b + c - 1) / c,
            c > 0,
    ;
}

proof fn lemma_checked_ratio_value(a: int, b: int, c: int, rounding: Rounding)
    requires
        checked_ratio(a, b, c, rounding) is Some,
        a >= 0,
        b >= 0,
    ensures
        c > 0,
        rounding == Rounding::Down ==> checked_ratio(a, b, c, rounding)->0 * c <= a * b,
        rounding == Rounding::Up ==> checked_ratio(a, b, c, rounding)->0 * c >= a * b,
{
    assert(a * b >= 0) by (nonlinear_arith)
        requires
            a >= 0,
            b >= 0,
    ;
    lemma_floor_times_divisor(a, b, c);
    lemma_ceil_times_divisor(a, b, c);
}

/// Selling `amount` of one asset and at once buying the same amount back
/// with the asset received costs at least what the sale paid out: a round
/// trip through the pool creates no value for the trader, whatever the fees.
pub proof fn lemma_sell_then_buy_back_creates_no_value(
    st_a: AssetReserveState,
    st_b: AssetReserveState,
    amount: u128,
    asset_fee: Permill,
    protocol_fee: Permill,
)
    requires
        st_a.wf(),
        st_b.wf(),
        asset_fee.wf(),
        protocol_fee.wf(),
        asset_fee.parts < PERMILL_ACCURACY,
        protocol_fee.parts < PERMILL_ACCURACY,
        sell_quote(st_a, st_b, amount, asset_fee, protocol_fee) is Some,
        buy_quote(
            sell_quote(st_a, st_b, amount, asset_fee, protocol_fee)->0.asset_out,
            sell_quote(st_a, st_b, amount, asset_fee, protocol_fee)->0.asset_in,
            amount,
            asset_fee,
            protocol_fee,
        ) is Some,
    ensures
        buy_quote(
            sell_quote(st_a, st_b, amount, asset_fee, protocol_fee)->0.asset_out,
            sell_quote(st_a, st_b, amount, asset_fee, protocol_fee)->0.asset_in,
            amount,
            asset_fee,
            protocol_fee,
        )->0.amount_in >= sell_quote(st_a, st_b, amount, asset_fee, protocol_fee)->0.amount_out,
{
    let q1 = sell_quote(st_a, st_b, amount, asset_fee, protocol_fee)->0;
    let a1 = q1.asset_in;
    let b1 = q1.asset_out;
    let q2 = buy_quote(b1, a1, amount, asset_fee, protocol_fee)->0;
    let ra = st_a.reserve as int;
    let qa = st_a.hub_reserve as int;
    let rb = st_b.reserve as int;
    let qb = st_b.hub_reserve as int;
    let x = amount as int;
    // The sale.
    let d1 = q1.hub_released as int;
    let d1n = q1.hub_received as int;
    let y = q1.amount_out as int;
    lemma_checked_ratio_value(qa, x, ra + x, Rounding::Down);
    assert(d1 * (ra + x) <= qa * x);
    lemma_ratio_floor_below(qa, x, ra + x);
    let g = sell_asset_release(st_b, q1.hub_received)->0 as int;
    lemma_checked_ratio_value(rb, d1n, qb + d1n, Rounding::Down);
    assert(g * (qb + d1n) <= rb * d1n);
    lemma_ratio_floor_below(rb, d1n, qb + d1n);
    lemma_ratio_floor_fraction(g, PERMILL_ACCURACY - asset_fee.parts, PERMILL_ACCURACY as int);
    assert(y <= g);
    lemma_ratio_floor_fraction(d1, protocol_fee.parts as int, PERMILL_ACCURACY as int);
    assert(d1n <= d1);
    assert(d1n >= 0);
    // The purchase back.
    let gross = checked_ratio(
        x,
        PERMILL_ACCURACY as int,
        PERMILL_ACCURACY - asset_fee.parts,
        Rounding::Up,
    )->0 as int;
    lemma_ratio_ceil_at_least(x, PERMILL_ACCURACY as int, PERMILL_ACCURACY - asset_fee.parts);
    assert(gross >= x);
    let dout = q2.hub_received as int;
    let ra1 = a1.reserve as int;
    let qa1 = a1.hub_reserve as int;
    assert(ra1 == ra + x);
    assert(qa1 == qa - d1);
    assert(gross < ra1);
    lemma_checked_ratio_value(qa1, gross, ra1 - gross, Rounding::Up);
    assert(dout * (ra1 - gross) >= qa1 * gross);
    assert(dout >= d1) by (nonlinear_arith)
        requires
            dout * (ra + x - gross) >= (qa - d1) * gross,
            d1 * (ra + x) <= qa * x,
            gross >= x,
            gross < ra + x,
            x >= 0,
            qa >= 0,
    ;
    let din = q2.hub_released as int;
    lemma_ratio_ceil_at_least(dout, PERMILL_ACCURACY as int, PERMILL_ACCURACY - protocol_fee.parts);
    assert(din >= dout);
    let rb1 = b1.reserve as int;
    let qb1 = b1.hub_reserve as int;
    assert(rb1 == rb - y);
    assert(qb1 == qb + d1n);
    assert(din < qb1);
    let ain = q2.amount_in as int;
    lemma_checked_ratio_value(rb1, din, qb1 - din, Rounding::Up);
    assert(ain * (qb1 - din) >= rb1 * din);
    assert(y * (qb + d1n) <= rb * d1n) by (nonlinear_arith)
        requires
            y <= g,
            g * (qb + d1n) <= rb * d1n,
            qb + d1n > 0,
    ;
    assert(ain >= y) by (nonlinear_arith)
        requires
            ain * (qb + d1n - din) >= (rb - y) * din,
            y * (qb + d1n) <= rb * d1n,
            din >= d1n,
            din < qb + d1n,
            rb >= 0,
            y >= 0,
            y <= rb,
    ;
}

/// The asset fee a trade leaves in the pool is exactly the fee's share of
/// the output before the fee, rounded up (in the pool's favour), so it never
/// exceeds that share by a unit or more; and a larger fee never pays out more.
pub proof fn lemma_asset_fee_bounded_and_monotonic(gross: u128, fee: Permill, larger: Permill)
    requires
        fee.wf(),
        larger.wf(),
        fee.parts <= larger.parts,
    ensures
        gross - ratio_floor(gross as int, PERMILL_ACCURACY - fee.parts, PERMILL_ACCURACY as int)
            == ratio_ceil(gross as int, fee.parts as int, PERMILL_ACCURACY as int),
        ratio_ceil(gross as int, fee.parts as int, PERMILL_ACCURACY as int) * PERMILL_ACCURACY
            < gross * fee.parts + PERMILL_ACCURACY,
        ratio_floor(gross as int, PERMILL_ACCURACY - larger.parts, PERMILL_ACCURACY as int)
            <= ratio_floor(gross as int, PERMILL_ACCURACY - fee.parts, PERMILL_ACCURACY as int),
{
    let g = gross as int;
    let f = fee.parts as int;
    let d = PERMILL_ACCURACY as int;
    lemma_fundamental_div_mod(g * f, d);
    let q = (g * f) / d;
    let r = (g * f) % d;
    assert(g * f >= 0) by (nonlinear_arith)
        requires
            g >= 0,
            f >= 0,
    ;
    assert(g * (d - f) == g * d - g * f) by (nonlinear_arith);
    if r == 0 {
        vstd::arithmetic::div_mod::lemma_fundamental_div_mod_converse(g * (d - f), d, g - q, 0);
        vstd::arithmetic::div_mod::lemma_fundamental_div_mod_converse(g * f + d - 1, d, q, d - 1);
    } else {
        vstd::arithmetic::div_mod::lemma_fundamental_div_mod_converse(
            g * (d - f),
            d,
            g - q - 1,
            d - r,
        );
        vstd::arithmetic::div_mod::lemma_fundamental_div_mod_converse(
            g * f + d - 1,
            d,
            q + 1,
            r - 1,
        );
    }
    assert(g * (d - larger.parts) <= g * (d - f)) by (nonlinear_arith)
        requires
            g >= 0,
            f <= larger.parts,
    ;
    vstd::arithmetic::div_mod::lemma_div_is_ordered(g * (d - larger.parts), g * (d - f), d);
}

/// Selling `amount` of one asset and then buying the proceeds back with the
/// same asset costs at least `amount`, whenever the purchase takes more hub
/// units out of the first asset's curve than the sale put into the pool.
/// Without that condition rounding can break it on tiny trades: a sale whose
/// proceeds round down to zero is followed by a free purchase of nothing.
pub proof fn lemma_buying_proceeds_back_costs_at_least_amount(
    st_a: AssetReserveState,
    st_b: AssetReserveState,
    amount: u128,
    asset_fee: Permill,
    protocol_fee: Permill,
)
    requires
        st_a.wf(),
        st_b.wf(),
        asset_fee.wf(),
        protocol_fee.wf(),
        sell_quote(st_a, st_b, amount, asset_fee, protocol_fee) is Some,
        buy_quote(
            sell_quote(st_a, st_b, amount, asset_fee, protocol_fee)->0.asset_in,
            sell_quote(st_a, st_b, amount, asset_fee, protocol_fee)->0.asset_out,
            sell_quote(st_a, st_b, amount, asset_fee, protocol_fee)->0.amount_out,
            asset_fee,
            protocol_fee,
        ) is Some,
        buy_quote(
            sell_quote(st_a, st_b, amount, asset_fee, protocol_fee)->0.asset_in,
            sell_quote(st_a, st_b, amount, asset_fee, protocol_fee)->0.asset_out,
            sell_quote(st_a, st_b, amount, asset_fee, protocol_fee)->0.amount_out,
            asset_fee,
            protocol_fee,
        )->0.hub_released > sell_quote(st_a, st_b, amount, asset_fee, protocol_fee)->0.hub_released,
    ensures
        buy_quote(
            sell_quote(st_a, st_b, amount, asset_fee, protocol_fee)->0.asset_in,
            sell_quote(st_a, st_b, amount, asset_fee, protocol_fee)->0.asset_out,
            sell_quote(st_a, st_b, amount, asset_fee, protocol_fee)->0.amount_out,
            asset_fee,
            protocol_fee,
        )->0.amount_in >= amount,
{
    let q1 = sell_quote(st_a, st_b, amount, asset_fee, protocol_fee)->0;
    let a1 = q1.asset_in;
    let q2 = buy_quote(a1, q1.asset_out, q1.amount_out, asset_fee, protocol_fee)->0;
    let ra = st_a.reserve as int;
    let qa = st_a.hub_reserve as int;
    let x = amount as int;
    let d1 = q1.hub_released as int;
    let din = q2.hub_released as int;
    let ain = q2.amount_in as int;
    lemma_fundamental_div_mod(qa * x, ra + x);
    assert(qa * x >= 0) by (nonlinear_arith)
        requires
            qa >= 0,
            x >= 0,
    ;
    assert(d1 == (qa * x) / (ra + x));
    assert((d1 + 1) * (ra + x) > qa * x) by (nonlinear_arith)
        requires
            qa * x == (ra + x) * ((qa * x) / (ra + x)) + (qa * x) % (ra + x),
            0 <= (qa * x) % (ra + x) < ra + x,
            d1 == (qa * x) / (ra + x),
    ;
    lemma_ratio_floor_below(qa, x, ra + x);
    assert(a1.reserve == ra + x);
    assert(a1.hub_reserve == qa - d1);
    assert(din < qa - d1);
    lemma_checked_ratio_value(ra + x, din, qa - d1 - din, Rounding::Up);
    assert(ain * (qa - d1 - din) >= (ra + x) * din);
    assert(ain >= x) by (nonlinear_arith)
        requires
            ain * (qa - d1 - din) >= (ra + x) * din,
            (d1 + 1) * (ra + x) > qa * x,
            din >= d1 + 1,
            qa - d1 - din > 0,
            d1 >= 0,
            x >= 0,
            ra > 0,
    ;
}

} // verus!
