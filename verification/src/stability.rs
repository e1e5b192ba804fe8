//! The reserve ratio, the circuit breaker that it trips, and the health
//! index.
//!
//! Ratios are integers in parts per million: 1,000,000 stands for 1.0. They
//! gate instructions and never take part in the arithmetic of balances.

use vstd::prelude::*;
use crate::state::{GlobalState, GlobalStateView, ValidatorState, ValidatorView};

verus! {

/// The ratio 1.0, in parts per million.
pub const RATIO_SCALE: u64 = 1_000_000;

/// The ETH-USD price at which collateral is worth its face value.
pub const PEG_SCALE: u64 = 3_000_000_000;

/// The ETH-USD price assumed while the oracle has reported none.
pub const DEFAULT_ETH_PRICE: u64 = 3_000_000_000;

/// Below this reserve ratio (0.85) the circuit breaker trips.
pub const BREAKER_RATIO: u64 = 850_000;

/// Below this reserve ratio (0.95) redemptions are queued.
pub const QUEUE_RATIO: u64 = 950_000;

/// The LUSD-USD price at which the senior unit is on its peg.
pub const PEG_PRICE: u64 = 1_000_000;

/// The highest value of the health index.
pub const HEALTH_SCALE: u64 = 10_000;

/// The ticker `ETH-USD`.
pub open spec fn eth_usd() -> Seq<u8> {
    seq![69u8, 84u8, 72u8, 45u8, 85u8, 83u8, 68u8]
}

/// The ticker `LUSD-USD`.
pub open spec fn lusd_usd() -> Seq<u8> {
    seq![76u8, 85u8, 83u8, 68u8, 45u8, 85u8, 83u8, 68u8]
}

/// The ticker `ETH-USD`.
pub fn eth_usd_ticker() -> (ticker: Vec<u8>)
    ensures
        ticker@ == eth_usd(),
{
    let mut ticker: Vec<u8> = Vec::new();
    ticker.push(69u8);
    ticker.push(84u8);
    ticker.push(72u8);
    ticker.push(45u8);
    ticker.push(85u8);
    ticker.push(83u8);
    ticker.push(68u8);
    assert(ticker@ =~= eth_usd());
    ticker
}

/// The ticker `LUSD-USD`.
pub fn lusd_usd_ticker() -> (ticker: Vec<u8>)
    ensures
        ticker@ == lusd_usd(),
{
    let mut ticker: Vec<u8> = Vec::new();
    ticker.push(76u8);
    ticker.push(85u8);
    ticker.push(83u8);
    ticker.push(68u8);
    ticker.push(45u8);
    ticker.push(85u8);
    ticker.push(83u8);
    ticker.push(68u8);
    assert(ticker@ =~= lusd_usd());
    ticker
}

/// The price stored for a ticker, or `fallback` if there is none.
pub open spec fn price_or(prices: Map<Seq<u8>, u64>, ticker: Seq<u8>, fallback: u64) -> u64 {
    if prices.contains_key(ticker) {
        prices[ticker]
    } else {
        fallback
    }
}

/// A non-negative number as a `u64`, the largest `u64` standing for
/// everything beyond it.
pub open spec fn saturate(n: int) -> u64 {
    if n > u64::MAX {
        u64::MAX
    } else {
        n as u64
    }
}

/// A number as a `u64`, the largest `u64` standing for everything beyond
/// it.
pub(crate) fn saturating_u64(n: u128) -> (r: u64)
    ensures
        r == saturate(n as int),
{
    if n > 0xffff_ffff_ffff_ffffu128 {
        0xffff_ffff_ffff_ffffu64
    } else {
        n as u64
    }
}

/// The reserve ratio in parts per million: the collateral price over the
/// peg scale, plus the stabilization pool over the senior supply.
pub open spec fn reserve_ratio(price: u64, pool: u64, supply: u64) -> u64
    recommends
        supply > 0,
{
    saturate(
        (price as int * 1_000_000) / 3_000_000_000 + (pool as int * 1_000_000) / (supply as int),
    )
}

/// Computes [`reserve_ratio`].
pub fn compute_reserve_ratio(price: u64, pool: u64, supply: u64) -> (ratio: u64)
    requires
        supply > 0,
    ensures
        ratio == reserve_ratio(price, pool, supply),
{
    let price_term: u128 = (price as u128 * 1_000_000u128) / 3_000_000_000u128;
    let pool_term: u128 = (pool as u128 * 1_000_000u128) / (supply as u128);
    assert(pool_term <= pool as int * 1_000_000) by (nonlinear_arith)
        requires
            supply > 0,
            pool_term == (pool as int * 1_000_000) / (supply as int),
    ;
    saturating_u64(price_term + pool_term)
}

/// The state after its reserve ratio was brought up to date. With no senior
/// supply the ratio is 1.0. A ratio below 0.85 trips the circuit breaker;
/// nothing here closes it again.
pub open spec fn recomputed(s: GlobalStateView) -> GlobalStateView {
    if s.total_lusd_supply == 0 {
        GlobalStateView { reserve_ratio_ppm: RATIO_SCALE, ..s }
    } else {
        let ratio = reserve_ratio(
            price_or(s.oracle_prices, eth_usd(), DEFAULT_ETH_PRICE),
            s.stabilization_pool_balance,
            s.total_lusd_supply,
        );
        GlobalStateView {
            reserve_ratio_ppm: ratio,
            circuit_breaker_active: s.circuit_breaker_active || ratio < BREAKER_RATIO,
            ..s
        }
    }
}

/// Brings the reserve ratio up to date and trips the circuit breaker where
/// the ratio has fallen below 0.85.
pub fn recalculate_ratios(state: &mut GlobalState)
    ensures
        final(state)@ == recomputed(old(state)@),
{
    if state.total_lusd_supply == 0 {
        state.reserve_ratio_ppm = RATIO_SCALE;
        return ;
    }
    let ticker = eth_usd_ticker();
    let price = match state.oracle_prices.get(ticker.as_slice()) {
        Some(p) => *p,
        None => DEFAULT_ETH_PRICE,
    };
    let ratio = compute_reserve_ratio(
        price,
        state.stabilization_pool_balance,
        state.total_lusd_supply,
    );
    state.reserve_ratio_ppm = ratio;
    if ratio < BREAKER_RATIO {
        state.circuit_breaker_active = true;
    }
}

/// How close the senior unit is to its peg, from 0 to 10,000: 10,000 at a
/// price of 1.0, one point less for each 100 millionths of deviation.
pub open spec fn peg_score(price: u64) -> u64 {
    let deviation = if price >= PEG_PRICE {
        price - PEG_PRICE
    } else {
        PEG_PRICE - price
    };
    if deviation >= PEG_PRICE {
        0
    } else {
        ((PEG_PRICE - deviation) / 100) as u64
    }
}

/// How far reserves cover the senior supply, from 0 to 10,000.
pub open spec fn coverage_score(ratio: u64) -> u64 {
    if ratio >= RATIO_SCALE {
        HEALTH_SCALE
    } else {
        ratio / 100
    }
}

/// The number of green validators.
pub open spec fn green_count(validators: Seq<ValidatorView>) -> nat
    decreases validators.len(),
{
    if validators.len() == 0 {
        0
    } else {
        green_count(validators.drop_last()) + if validators.last().is_green {
            1nat
        } else {
            0nat
        }
    }
}

/// The share of green validators, from 0 to 10,000.
pub open spec fn green_score(validators: Seq<ValidatorView>) -> u64 {
    if validators.len() == 0 {
        0
    } else {
        ((green_count(validators) * 10_000) / validators.len()) as u64
    }
}

/// The health index: four tenths peg, three tenths coverage, two tenths for
/// a closed circuit breaker, one tenth green validators.
pub open spec fn health_of(s: GlobalStateView) -> u64 {
    ((4 * peg_score(price_or(s.oracle_prices, lusd_usd(), PEG_PRICE)) + 3 * coverage_score(
        s.reserve_ratio_ppm,
    ) + 2 * (if s.circuit_breaker_active {
        0
    } else {
        HEALTH_SCALE as int
    }) + green_score(s.validators)) / 10) as u64
}

/// No more validators are green than there are validators.
pub proof fn lemma_green_count_bound(validators: Seq<ValidatorView>)
    ensures
        green_count(validators) <= validators.len(),
    decreases validators.len(),
{
    if validators.len() > 0 {
        lemma_green_count_bound(validators.drop_last());
    }
}

/// The health index never exceeds 10,000.
pub proof fn lemma_health_bound(s: GlobalStateView)
    ensures
        health_of(s) <= HEALTH_SCALE,
{
    lemma_green_count_bound(s.validators);
    let n = s.validators.len();
    let g = green_count(s.validators);
    if n > 0 {
        assert((g * 10_000) / n <= 10_000) by (nonlinear_arith)
            requires
                g <= n,
                n > 0,
        ;
    }
}

/// Counts the green validators.
fn count_green(validators: &Vec<ValidatorState>) -> (count: usize)
    ensures
        count == green_count(validators@.map_values(|v: ValidatorState| v@)),
{
    let ghost views = validators@.map_values(|v: ValidatorState| v@);
    let mut count: usize = 0;
    let mut i: usize = 0;
    while i < validators.len()
        invariant
            i <= validators.len(),
            views == validators@.map_values(|v: ValidatorState| v@),
            count == green_count(views.subrange(0, i as int)),
            count <= i,
        decreases validators.len() - i,
    {
        proof {
            assert(views.subrange(0, i + 1).drop_last() =~= views.subrange(0, i as int));
        }
        if validators[i].is_green {
            count += 1;
        }
        i += 1;
    }
    assert(views.subrange(0, i as int) =~= views);
    count
}

/// Computes the health index of the state.
pub fn compute_health(state: &GlobalState) -> (health: u64)
    ensures
        health == health_of(state@),
        health <= HEALTH_SCALE,
{
    let ticker = lusd_usd_ticker();
    let price = match state.oracle_prices.get(ticker.as_slice()) {
        Some(p) => *p,
        None => PEG_PRICE,
    };
    let deviation = if price >= PEG_PRICE {
        price - PEG_PRICE
    } else {
        PEG_PRICE - price
    };
    let peg: u64 = if deviation >= PEG_PRICE {
        0
    } else {
        (PEG_PRICE - deviation) / 100
    };
    let coverage: u64 = if state.reserve_ratio_ppm >= RATIO_SCALE {
        HEALTH_SCALE
    } else {
        state.reserve_ratio_ppm / 100
    };
    let breaker: u64 = if state.circuit_breaker_active {
        0
    } else {
        HEALTH_SCALE
    };
    let total = state.validators.len();
    let green: u64 = if total == 0 {
        0
    } else {
        let count = count_green(&state.validators);
        proof {
            lemma_green_count_bound(state@.validators);
            assert((count as int * 10_000) / (total as int) <= 10_000) by (nonlinear_arith)
                requires
                    count <= total,
                    total > 0,
            ;
        }
        ((count as u128 * 10_000u128) / (total as u128)) as u64
    };
    proof {
        lemma_health_bound(state@);
    }
    (4 * peg + 3 * coverage + 2 * breaker + green) / 10
}

} // verus!
