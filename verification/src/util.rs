//! Price arithmetic of the exchange.

use vstd::prelude::*;

verus! {

/// Seconds of a day.
pub const DAY_SECONDS: i64 = 86_400;

/// A position whose target lies above this return is guarded once it has risen above it. In
/// billionths of a percent.
pub const AUTO_PROFIT_GUARD_PCT: i64 = 300_000_000;

/// The second of its day at which a wall-clock time lies.
pub open spec fn second_of_day(at: int) -> int {
    at % 86_400
}

/// Tick size of an ordinary share at `price`, by the exchange's price bands.
pub open spec fn band_tick(price: int) -> int {
    if price < 2_000 {
        1
    } else if price < 5_000 {
        5
    } else if price < 20_000 {
        10
    } else if price < 50_000 {
        50
    } else if price < 200_000 {
        100
    } else if price < 500_000 {
        500
    } else {
        1_000
    }
}

/// The greatest multiple of `tick` that is not above `price`.
pub open spec fn floor_to(price: int, tick: int) -> int {
    (price / tick) * tick
}

/// The least multiple of `tick` that is not below `price`.
pub open spec fn ceil_to(price: int, tick: int) -> int {
    ((price + tick - 1) / tick) * tick
}

pub proof fn lemma_floor_to(price: int, tick: int)
    requires
        0 <= price,
        0 < tick,
    ensures
        floor_to(price, tick) == price - price % tick,
        0 <= floor_to(price, tick) <= price < floor_to(price, tick) + tick,
        floor_to(price, tick) % tick == 0,
{
    vstd::arithmetic::div_mod::lemma_fundamental_div_mod(price, tick);
    vstd::arithmetic::mul::lemma_mul_is_commutative(price / tick, tick);
    vstd::arithmetic::div_mod::lemma_mod_bound(price, tick);
    vstd::arithmetic::div_mod::lemma_mod_multiples_basic(price / tick, tick);
    vstd::arithmetic::div_mod::lemma_div_pos_is_pos(price, tick);
    vstd::arithmetic::mul::lemma_mul_nonnegative(price / tick, tick);
}

pub proof fn lemma_ceil_to(price: int, tick: int)
    requires
        0 <= price,
        0 < tick,
    ensures
        ceil_to(price, tick) == (if price % tick == 0 {
            price
        } else {
            price + tick - price % tick
        }),
        price <= ceil_to(price, tick) < price + tick,
        ceil_to(price, tick) % tick == 0,
{
    lemma_floor_to(price + tick - 1, tick);
    lemma_floor_to(price, tick);
    let c = ceil_to(price, tick);
    let f = floor_to(price, tick);
    let r = price % tick;
    let e = if r == 0 { price } else { price + tick - r };
    let k = price / tick;
    let m = if r == 0 { k } else { k + 1 };
    assert(e == m * tick) by (nonlinear_arith)
        requires
            e == (if r == 0 { price } else { price + tick - r }),
            f == k * tick,
            f == price - r,
            m == (if r == 0 { k } else { k + 1 }),
    ;
    let d = (price + tick - 1) / tick;
    assert(d == m) by (nonlinear_arith)
        requires
            c == d * tick,
            e == m * tick,
            price <= c < price + tick,
            price <= e < price + tick,
            0 < tick,
    ;
}

/// Tick size of the exchange. ETFs and ETNs move in steps of five won at any price.
pub fn tick_size(price: u64, etf: bool) -> (tick: u64)
    ensures
        tick == (if etf { 5 } else { band_tick(price as int) }),
        1 <= tick <= 1_000,
{
    if etf {
        return 5;
    }
    match price {
        0..=1_999 => 1,
        2_000..=4_999 => 5,
        5_000..=19_999 => 10,
        20_000..=49_999 => 50,
        50_000..=199_999 => 100,
        200_000..=499_999 => 500,
        _ => 1_000,
    }
}

/// Premium over the reference price at which a purchase is limited, in percent, so that an
/// immediate order also fills in a rising market.
pub const BUY_PREMIUM_PCT: u64 = 3;

/// Part of the orderable cash that a purchase at the reference price may use, in percent.
pub const CASH_USE_PCT: u64 = 95;

/// The reference price and the premium, before alignment.
pub open spec fn with_premium(base: int) -> int {
    base + base * BUY_PREMIUM_PCT / 100
}

/// Limit of a purchase: the reference price and 3 %, rounded down to the tick.
pub fn buy_limit_price(base: u64, etf: bool) -> (limit: u64)
    requires
        base * BUY_PREMIUM_PCT <= u64::MAX,
        with_premium(base as int) <= u64::MAX,
    ensures
        limit == floor_to(
            with_premium(base as int),
            if etf {
                5
            } else {
                band_tick(with_premium(base as int))
            },
        ),
{
    let raw: u64 = base + base * BUY_PREMIUM_PCT / 100;
    let tick: u64 = tick_size(raw, etf);
    proof {
        lemma_floor_to(raw as int, tick as int);
    }
    raw - (raw % tick)
}

/// Number of shares that 95 % of the cash buys at the reference price.
pub fn max_buy_qty(cash: u64, reference_price: u64) -> (qty: u64)
    ensures
        qty == (if reference_price == 0 {
            0
        } else {
            cash * CASH_USE_PCT / (100 * reference_price)
        }),
{
    if reference_price == 0 {
        return 0;
    }
    let budget: u128 = cash as u128 * 95;
    let unit: u128 = 100 * reference_price as u128;
    let qty: u128 = budget / unit;
    proof {
        assert(0 <= qty * 100 <= budget) by (nonlinear_arith)
            requires
                qty == budget / unit,
                unit >= 100,
                budget >= 0,
        ;
    }
    qty as u64
}

/// `numerator / denominator`, rounded up.
pub open spec fn div_up(numerator: int, denominator: int) -> int {
    (numerator + denominator - 1) / denominator
}

/// What the average price must rise to, in ten-thousandths of a won times hundred billionths:
/// the average times one and the return.
pub open spec fn raised(avg_price: u64, pct: i64) -> int {
    avg_price * (100_000_000_000 + pct)
}

/// Tick of the raised price.
pub open spec fn raised_tick(avg_price: u64, pct: i64, etf: bool) -> int {
    if etf {
        5
    } else {
        band_tick(raised(avg_price, pct) / 1_000_000_000_000_000)
    }
}

/// The first tick at or above the average price and the return. Without an average price, and for a
/// loss of all of it, there is none.
pub open spec fn target_price(avg_price: u64, pct: i64, etf: bool) -> int {
    if avg_price == 0 || pct <= -100_000_000_000 {
        0
    } else {
        let tick = raised_tick(avg_price, pct, etf);
        div_up(raised(avg_price, pct), tick * 1_000_000_000_000_000) * tick
    }
}

/// Ticks that reach a raised price are worth it at least.
proof fn lemma_ticks_reach(raw: int, tick: int)
    requires
        0 <= raw,
        1 <= tick,
    ensures
        raw / 1_000_000_000_000_000 <= div_up(raw, tick * 1_000_000_000_000_000) * tick,
        0 <= div_up(raw, tick * 1_000_000_000_000_000) <= div_up(
            raw,
            tick * 1_000_000_000_000_000,
        ) * tick,
{
    let unit = tick * 1_000_000_000_000_000;
    let q = div_up(raw, unit);
    vstd::arithmetic::div_mod::lemma_fundamental_div_mod(raw + unit - 1, unit);
    vstd::arithmetic::div_mod::lemma_mod_bound(raw + unit - 1, unit);
    vstd::arithmetic::div_mod::lemma_div_pos_is_pos(raw + unit - 1, unit);
    assert(unit * q == q * tick * 1_000_000_000_000_000) by (nonlinear_arith)
        requires
            unit == tick * 1_000_000_000_000_000,
    ;
    assert(q <= q * tick) by (nonlinear_arith)
        requires
            0 <= q,
            1 <= tick,
    ;
}

/// Price of a reserved sale: the first tick at or above the average price and the return.
///
/// The average price is in ten-thousandths of a won and the return in billionths of a percent.
/// Rounding up, where `buy_limit_price` rounds down, keeps the return at least what was asked for.
pub fn sell_target_price(avg_price: u64, pct: i64, etf: bool) -> (target: u64)
    requires
        target_price(avg_price, pct, etf) <= u64::MAX,
    ensures
        target == target_price(avg_price, pct, etf),
{
    if avg_price == 0 || pct <= -100_000_000_000 {
        return 0;
    }
    let factor: i128 = 100_000_000_000 + pct as i128;
    proof {
        assert(0 <= avg_price * factor <= 0xffff_ffff_ffff_ffff * 0x8000_0017_4876_e7ff)
            by (nonlinear_arith)
            requires
                0 <= factor <= 0x8000_0017_4876_e7ff,
                0 <= avg_price <= 0xffff_ffff_ffff_ffff,
        ;
        lemma_ticks_reach(raised(avg_price, pct), raised_tick(avg_price, pct, etf));
    }
    let raw: u128 = avg_price as u128 * factor as u128;
    let won: u128 = raw / 1_000_000_000_000_000;
    let tick: u64 = tick_size(won as u64, etf);
    let unit: u128 = tick as u128 * 1_000_000_000_000_000;
    let ticks: u128 = (raw + unit - 1) / unit;
    (ticks * tick as u128) as u64
}

/// A purchase is limited to at most 3 % above the reference price, less than a tick below that, on
/// a tick.
pub proof fn buy_limit_is_close_to_the_premium(base: u64, etf: bool)
    ensures
        ({
            let raw = with_premium(base as int);
            let tick = if etf {
                5
            } else {
                band_tick(raw)
            };
            let limit = floor_to(raw, tick);
            &&& limit * 100 <= base * 103
            &&& raw - tick < limit
            &&& limit % tick == 0
        }),
{
    let raw = with_premium(base as int);
    lemma_floor_to(
        raw,
        if etf {
            5
        } else {
            band_tick(raw)
        },
    );
}

/// What 95 % of the cash buys costs no more than 95 % of the cash, and one share more would.
pub proof fn max_buy_is_the_most(cash: u64, reference_price: u64)
    requires
        reference_price > 0,
    ensures
        ({
            let qty = cash * CASH_USE_PCT / (100 * reference_price);
            &&& qty * reference_price * 100 <= cash * 95
            &&& (qty + 1) * reference_price * 100 > cash * 95
        }),
{
    let n = cash * CASH_USE_PCT;
    let d = 100 * reference_price;
    let q = n / d;
    vstd::arithmetic::div_mod::lemma_fundamental_div_mod(n, d);
    vstd::arithmetic::div_mod::lemma_mod_bound(n, d);
    assert(q * reference_price * 100 == d * q && (q + 1) * reference_price * 100 == d * q + d)
        by (nonlinear_arith)
        requires
            d == 100 * reference_price,
    ;
}

/// A reserved sale earns at least the return asked for, and a tick less would not.
pub proof fn sell_target_is_the_first_tick(avg_price: u64, pct: i64, etf: bool)
    requires
        avg_price > 0,
        -100_000_000_000 < pct,
    ensures
        ({
            let tick = raised_tick(avg_price, pct, etf);
            let unit = 1_000_000_000_000_000int;
            let target = target_price(avg_price, pct, etf);
            &&& target * unit >= raised(avg_price, pct)
            &&& (target - tick) * unit < raised(avg_price, pct)
            &&& target % tick == 0
        }),
{
    let tick = raised_tick(avg_price, pct, etf);
    let unit = 1_000_000_000_000_000int;
    let raw = raised(avg_price, pct);
    assert(raw >= 0) by (nonlinear_arith)
        requires
            raw == avg_price * (100_000_000_000 + pct),
            -100_000_000_000 <= pct,
            avg_price > 0,
    ;
    let d = tick * unit;
    lemma_ceil_to(raw, d);
    let q = div_up(raw, d);
    assert(ceil_to(raw, d) == q * d);
    assert(q * tick * unit == q * d && (q * tick - tick) * unit == q * d - d) by (nonlinear_arith)
        requires
            d == tick * unit,
    ;
    vstd::arithmetic::div_mod::lemma_mod_multiples_basic(q, tick);
}

/// Ticks grow with the price, from one won below 2,000 to a thousand from 500,000 on; those of ETFs
/// are five won.
pub proof fn ticks_follow_the_bands(price: int)
    requires
        0 <= price,
    ensures
        price <= 1_999 ==> band_tick(price) == 1,
        2_000 <= price <= 4_999 ==> band_tick(price) == 5,
        5_000 <= price <= 19_999 ==> band_tick(price) == 10,
        20_000 <= price <= 49_999 ==> band_tick(price) == 50,
        50_000 <= price <= 199_999 ==> band_tick(price) == 100,
        200_000 <= price <= 499_999 ==> band_tick(price) == 500,
        500_000 <= price ==> band_tick(price) == 1_000,
{
}

/// A purchase is limited to a price no more than 3 % above the reference, and so close to that that
/// a tick and a won more would be above it.
pub proof fn buy_limit_is_three_percent_up(base: u64, etf: bool, limit: int)
    requires
        limit == floor_to(
            with_premium(base as int),
            if etf {
                5
            } else {
                band_tick(with_premium(base as int))
            },
        ),
    ensures
        limit * 100 <= base * 103,
        etf ==> limit % 5 == 0 && (limit + 6) * 100 > base * 103,
        !etf ==> (limit + 1_001) * 100 > base * 103,
        !etf && base < 1_900 ==> (limit + 2) * 100 > base * 103,
{
    let raw = with_premium(base as int);
    lemma_floor_to(
        raw,
        if etf {
            5
        } else {
            band_tick(raw)
        },
    );
}

/// A reserved sale is at the first tick that earns the return asked for: at that price it earns at
/// least the return, and a tick lower it would not. The average price is in ten-thousandths of a won
/// and the return in billionths of a percent.
pub proof fn reserved_sale_earns_its_return(avg_price: u64, pct: i64, etf: bool)
    requires
        avg_price > 0,
        -100_000_000_000 < pct,
    ensures
        ({
            let target = target_price(avg_price, pct, etf);
            let asked = avg_price * (100_000_000_000 + pct);
            let tick = if etf {
                5
            } else {
                band_tick(asked / 1_000_000_000_000_000)
            };
            &&& target * 1_000_000_000_000_000 >= asked
            &&& (target - tick) * 1_000_000_000_000_000 < asked
            &&& target % tick == 0
        }),
{
    sell_target_is_the_first_tick(avg_price, pct, etf);
}

} // verus!
