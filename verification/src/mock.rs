//! A market to practise on: orders fill against prices that are made up.

use vstd::prelude::*;
use vstd::utf8::encode_utf8;

use crate::broker::{AckView, OrderAck};
use crate::clock::{midnight, on_calendar, MAX_TIMESTAMP, MIN_TIMESTAMP};
use crate::error::{is_config, AppError, OrderRejection};
use crate::kis::quote::{is_weekend, weekend};
use crate::seqs::{filter_mapped, lemma_filter_mapped_step, lemma_first_where, lemma_first_where_bounds};
use crate::settings::{symbol_views, Settings, SymbolConfig, SymbolView};
use crate::tables::{
    find, keyed, lemma_place, lemma_unique_push, lemma_unique_update, place, rows, unique, Keyed,
};
use crate::text::{decimal, digits, joined, same};
use crate::types::{
    AccountSnapshot, FillEvent, FillEventView, HoldingView, Position, Quote, QuoteView, Side,
};
use crate::util::{band_tick, second_of_day, tick_size};

verus! {

/// Cash to begin with, in won.
pub const INITIAL_CASH: u64 = 10_000_000;

/// A code with its price.
#[derive(Debug)]
pub struct SymState {
    pub code: String,
    pub price: u64,
    pub day_open: u64,
    pub etf: bool,
}

#[verifier::ext_equal]
pub struct SymView {
    pub code: Seq<char>,
    pub price: u64,
    pub day_open: u64,
    pub etf: bool,
}

impl View for SymState {
    type V = SymView;

    open spec fn view(&self) -> SymView {
        SymView { code: self.code@, price: self.price, day_open: self.day_open, etf: self.etf }
    }
}

impl Keyed for SymState {
    open spec fn key_of(row: SymView) -> Seq<char> {
        row.code
    }

    fn key(&self) -> (key: &str) {
        self.code.as_str()
    }
}

/// Shares that are held.
#[derive(Debug)]
pub struct Holding {
    pub code: String,
    pub qty: u64,
    /// In ten-thousandths of a won.
    pub avg: u64,
}

#[verifier::ext_equal]
pub struct HeldView {
    pub code: Seq<char>,
    pub qty: u64,
    pub avg: u64,
}

impl View for Holding {
    type V = HeldView;

    open spec fn view(&self) -> HeldView {
        HeldView { code: self.code@, qty: self.qty, avg: self.avg }
    }
}

impl Keyed for Holding {
    open spec fn key_of(row: HeldView) -> Seq<char> {
        row.code
    }

    fn key(&self) -> (key: &str) {
        self.code.as_str()
    }
}

/// A sale that waits for its price.
#[derive(Debug)]
pub struct RestingSell {
    pub code: String,
    pub qty: u64,
    pub limit_price: u64,
    pub order_no: String,
}

#[verifier::ext_equal]
pub struct RestingView {
    pub code: Seq<char>,
    pub qty: u64,
    pub limit_price: u64,
    pub order_no: Seq<char>,
}

impl View for RestingSell {
    type V = RestingView;

    open spec fn view(&self) -> RestingView {
        RestingView {
            code: self.code@,
            qty: self.qty,
            limit_price: self.limit_price,
            order_no: self.order_no@,
        }
    }
}

impl Keyed for RestingSell {
    open spec fn key_of(row: RestingView) -> Seq<char> {
        row.code
    }

    fn key(&self) -> (key: &str) {
        self.code.as_str()
    }
}

/// The market.
#[derive(Debug)]
pub struct MockMarket {
    pub syms: Vec<SymState>,
    pub cash: u64,
    pub positions: Vec<Holding>,
    /// One for each code at most.
    pub resting_sells: Vec<RestingSell>,
}

#[verifier::ext_equal]
pub struct MarketView {
    pub syms: Seq<SymView>,
    pub cash: u64,
    pub positions: Seq<HeldView>,
    pub resting_sells: Seq<RestingView>,
}

impl View for MockMarket {
    type V = MarketView;

    open spec fn view(&self) -> MarketView {
        MarketView {
            syms: rows(self.syms@),
            cash: self.cash,
            positions: rows(self.positions@),
            resting_sells: rows(self.resting_sells@),
        }
    }
}

pub open spec fn byte_sum(bytes: Seq<u8>) -> int
    decreases bytes.len(),
{
    if bytes.len() == 0 {
        0
    } else {
        byte_sum(bytes.drop_last()) + bytes.last()
    }
}

/// The price that a code begins with.
pub open spec fn base_of(code: Seq<char>) -> int {
    if code == "000660"@ {
        194_500
    } else if code == "005930"@ {
        86_400
    } else if code == "0193T0"@ {
        12_800
    } else if code == "0197X0"@ {
        8_300
    } else if code == "0193W0"@ {
        15_200
    } else if code == "0193L0"@ {
        9_100
    } else {
        5_000 + byte_sum(encode_utf8(code)) % 40 * 500
    }
}

fn code_sum(code: &str) -> (sum: u64)
    ensures
        sum == byte_sum(encode_utf8(code@)) % 40,
{
    let bytes = code.as_bytes();
    let ghost all = encode_utf8(code@);
    let mut sum: u64 = 0;
    let mut i: usize = 0;
    assert(all.take(0) =~= Seq::empty());
    while i < bytes.len()
        invariant
            i <= bytes@.len(),
            bytes@ == all,
            sum < 40,
            sum == byte_sum(all.take(i as int)) % 40,
        decreases bytes@.len() - i,
    {
        assert(all.take(i + 1).drop_last() =~= all.take(i as int));
        sum = (sum + bytes[i] as u64) % 40;
        i += 1;
    }
    assert(all.take(i as int) =~= all);
    sum
}

/// The price that a code begins with. A code that is not known has one that depends on its
/// bytes.
pub fn base_price(code: &str) -> (price: u64)
    ensures
        price == base_of(code@),
{
    if same(code, "000660") {
        194_500
    } else if same(code, "005930") {
        86_400
    } else if same(code, "0193T0") {
        12_800
    } else if same(code, "0197X0") {
        8_300
    } else if same(code, "0193W0") {
        15_200
    } else if same(code, "0193L0") {
        9_100
    } else {
        5_000 + code_sum(code) * 500
    }
}

pub open spec fn capped(n: int) -> u64 {
    if n <= u64::MAX {
        n as u64
    } else {
        u64::MAX
    }
}

proof fn lemma_product_fits(price: u64, qty: u64)
    ensures
        0 <= price * qty <= 0xffff_ffff_ffff_ffff * 0xffff_ffff_ffff_ffff,
{
    assert(0 <= price * qty <= 0xffff_ffff_ffff_ffff * 0xffff_ffff_ffff_ffff) by (nonlinear_arith)
        requires
            price <= 0xffff_ffff_ffff_ffff,
            qty <= 0xffff_ffff_ffff_ffff,
    ;
}

fn capped_product(cash: u64, price: u64, qty: u64) -> (sum: u64)
    ensures
        sum == capped(cash + price * qty),
{
    proof {
        lemma_product_fits(price, qty);
    }
    let sum: u128 = cash as u128 + price as u128 * qty as u128;
    if sum <= u64::MAX as u128 {
        sum as u64
    } else {
        u64::MAX
    }
}

/// Shares of a code that are held.
pub open spec fn held(positions: Seq<HeldView>, code: Seq<char>) -> u64 {
    let i = place::<Holding>(positions, code);
    if i < positions.len() {
        positions[i].qty
    } else {
        0
    }
}

fn held_of(positions: &Vec<Holding>, code: &str) -> (qty: u64)
    ensures
        qty == held(rows(positions@), code@),
{
    match find(positions, code) {
        Some(k) => {
            assert(rows(positions@)[k as int] == positions@[k as int]@);
            positions[k].qty
        },
        None => 0,
    }
}

/// Positions after shares of a code were sold. A code of which nothing is left goes.
pub open spec fn sold(positions: Seq<HeldView>, code: Seq<char>, qty: u64) -> Seq<HeldView> {
    let i = place::<Holding>(positions, code);
    if i < positions.len() {
        if positions[i].qty == qty {
            positions.remove(i)
        } else {
            positions.update(i, HeldView { qty: (positions[i].qty - qty) as u64, ..positions[i] })
        }
    } else {
        positions
    }
}

/// Whether a code's price has reached that of a sale.
pub open spec fn reached(syms: Seq<SymView>, sell: RestingView) -> bool {
    let i = place::<SymState>(syms, sell.code);
    i < syms.len() && syms[i].price >= sell.limit_price
}

/// The fill of a sale, at its own price.
pub open spec fn fill_of(sell: RestingView, qty: u64, at: i64) -> FillEventView {
    FillEventView {
        fill_id: "mock:"@ + sell.code + ":"@ + digits(qty as nat) + ":"@ + digits(
            sell.limit_price as nat,
        ),
        order_no: Seq::empty(),
        original_order_no: Seq::empty(),
        org_no: Seq::empty(),
        code: sell.code,
        side: Side::Sell,
        qty,
        price: capped(sell.limit_price * 10_000),
        filled_at: at,
        status: "filled"@,
    }
}

/// A market while its sales are settled, and their fills.
#[verifier::ext_equal]
pub struct Settling {
    pub cash: u64,
    pub positions: Seq<HeldView>,
    pub kept: Seq<RestingView>,
    pub fills: Seq<FillEventView>,
}

/// The market with its first sales settled.
pub open spec fn settled(market: MarketView, at: i64, n: int) -> Settling
    decreases n,
{
    if n <= 0 {
        Settling {
            cash: market.cash,
            positions: market.positions,
            kept: Seq::empty(),
            fills: Seq::empty(),
        }
    } else {
        let before = settled(market, at, n - 1);
        let sell = market.resting_sells[n - 1];
        if !reached(market.syms, sell) {
            Settling { kept: before.kept.push(sell), ..before }
        } else {
            let have = held(before.positions, sell.code);
            let qty = if sell.qty <= have {
                sell.qty
            } else {
                have
            };
            if qty == 0 {
                before
            } else {
                Settling {
                    cash: capped(before.cash + sell.limit_price * qty),
                    positions: sold(before.positions, sell.code, qty),
                    kept: before.kept,
                    fills: before.fills.push(fill_of(sell, qty, at)),
                }
            }
        }
    }
}

fn sell_held(positions: &mut Vec<Holding>, code: &str, qty: u64)
    requires
        qty <= held(rows(old(positions)@), code@),
    ensures
        rows(final(positions)@) == sold(rows(old(positions)@), code@, qty),
{
    let ghost before = rows(positions@);
    if let Some(i) = find(positions, code) {
        assert(before[i as int] == positions@[i as int]@);
        if positions[i].qty == qty {
            positions.remove(i);
            assert(rows(positions@) =~= before.remove(i as int));
        } else {
            let mut row = Holding {
                code: positions[i].code.clone(),
                qty: positions[i].qty,
                avg: positions[i].avg,
            };
            row.qty = row.qty - qty;
            positions.set(i, row);
            assert(rows(positions@) =~= before.update(i as int, row@));
        }
    }
}

fn write_fill(sell: &RestingSell, qty: u64, at: i64) -> (fill: FillEvent)
    ensures
        fill@ == fill_of(sell@, qty, at),
{
    let mut fill_id = joined("mock:", sell.code.as_str());
    fill_id.append(":");
    fill_id.append(decimal(qty).as_str());
    fill_id.append(":");
    fill_id.append(decimal(sell.limit_price).as_str());
    let price: u64 = if sell.limit_price <= u64::MAX / 10_000 {
        sell.limit_price * 10_000
    } else {
        u64::MAX
    };
    FillEvent {
        fill_id,
        order_no: String::new(),
        original_order_no: String::new(),
        org_no: String::new(),
        code: sell.code.clone(),
        side: Side::Sell,
        qty,
        price,
        filled_at: at,
        status: "filled".to_owned(),
    }
}

/// Settles the sales whose price has been reached, each at its own price, and gives the fills.
pub fn check_resting_fills(market: &mut MockMarket, now: i64) -> (fills: Vec<FillEvent>)
    ensures
        ({
            let end = settled(old(market)@, now, old(market)@.resting_sells.len() as int);
            &&& rows(fills@) == end.fills
            &&& final(market)@ == (MarketView {
                cash: end.cash,
                positions: end.positions,
                resting_sells: end.kept,
                ..old(market)@
            })
        }),
{
    let ghost start = market@;
    let mut fills: Vec<FillEvent> = Vec::new();
    let mut kept: Vec<RestingSell> = Vec::new();
    let mut i: usize = 0;
    proof {
        assert(rows(fills@) =~= Seq::empty());
        assert(rows(kept@) =~= Seq::empty());
    }
    while i < market.resting_sells.len()
        invariant
            i <= market.resting_sells@.len(),
            market@.syms == start.syms,
            market@.resting_sells == start.resting_sells,
            (Settling {
                cash: market.cash,
                positions: rows(market.positions@),
                kept: rows(kept@),
                fills: rows(fills@),
            }) == settled(start, now, i as int),
        decreases market.resting_sells@.len() - i,
    {
        let ghost before = settled(start, now, i as int);
        let sell = RestingSell {
            code: market.resting_sells[i].code.clone(),
            qty: market.resting_sells[i].qty,
            limit_price: market.resting_sells[i].limit_price,
            order_no: market.resting_sells[i].order_no.clone(),
        };
        assert(start.resting_sells[i as int] == market.resting_sells@[i as int]@);
        assert(sell@ == start.resting_sells[i as int]);
        let hit = match find(&market.syms, sell.code.as_str()) {
            Some(k) => market.syms[k].price >= sell.limit_price,
            None => false,
        };
        assert(hit == reached(start.syms, sell@));
        if !hit {
            kept.push(sell);
            assert(rows(kept@) =~= before.kept.push(sell@));
        } else {
            let have: u64 = held_of(&market.positions, sell.code.as_str());
            let qty: u64 = if sell.qty <= have {
                sell.qty
            } else {
                have
            };
            if qty > 0 {
                market.cash = capped_product(market.cash, sell.limit_price, qty);
                sell_held(&mut market.positions, sell.code.as_str(), qty);
                let fill = write_fill(&sell, qty, now);
                fills.push(fill);
                assert(rows(fills@) =~= before.fills.push(fill@));
            }
        }
        i += 1;
    }
    market.resting_sells = kept;
    fills
}

/// What a sale at a price does not reach stays: a market whose prices are all below settles nothing.
pub proof fn unreached_sales_stay(market: MarketView, at: i64, n: int)
    requires
        0 <= n <= market.resting_sells.len(),
        forall|i: int|
            0 <= i < n ==> !reached(market.syms, #[trigger] market.resting_sells[i]),
    ensures
        settled(market, at, n).fills.len() == 0,
        settled(market, at, n).kept == market.resting_sells.take(n),
        settled(market, at, n).cash == market.cash,
        settled(market, at, n).positions == market.positions,
    decreases n,
{
    if n > 0 {
        unreached_sales_stay(market, at, n - 1);
        assert(market.resting_sells.take(n) =~= market.resting_sells.take(n - 1).push(
            market.resting_sells[n - 1],
        ));
    } else {
        assert(market.resting_sells.take(0) =~= Seq::empty());
    }
}

/// An order that the market refuses, with this message.
pub open spec fn is_refused(error: AppError, message: Seq<char>) -> bool {
    error matches AppError::Order(rejection) && rejection.code_spec() is None
        && rejection.message_spec() == message
}

fn refused(message: &str) -> (error: AppError)
    ensures
        is_refused(error, message@),
{
    AppError::Order(OrderRejection::new(message))
}

/// The market's answer to an order.
pub open spec fn answer(order_no: Seq<char>, message: Seq<char>) -> AckView {
    AckView { order_no, org_no: "DEMO-ORG"@, message }
}

fn acknowledge(order_no: String, message: &str) -> (ack: OrderAck)
    ensures
        ack@ == answer(order_no@, message@),
{
    OrderAck { order_no, org_no: "DEMO-ORG".to_owned(), message: message.to_owned() }
}

/// A code at the price that it begins with.
pub open spec fn opened(symbol: SymbolView) -> SymView {
    SymView {
        code: symbol.code,
        price: base_of(symbol.code) as u64,
        day_open: base_of(symbol.code) as u64,
        etf: symbol.etf,
    }
}

/// The codes of a list, none twice: of two with the same code the later counts.
pub open spec fn listed(symbols: Seq<SymbolView>) -> Seq<SymView>
    decreases symbols.len(),
{
    if symbols.len() == 0 {
        Seq::empty()
    } else {
        let before = listed(symbols.drop_last());
        let i = place::<SymState>(before, symbols.last().code);
        if i < before.len() {
            before.update(i, opened(symbols.last()))
        } else {
            before.push(opened(symbols.last()))
        }
    }
}

fn list_symbols(syms: &mut Vec<SymState>, symbols: &Vec<SymbolConfig>, Ghost(before): Ghost<
    Seq<SymbolView>,
>)
    requires
        rows(old(syms)@) == listed(before),
    ensures
        rows(final(syms)@) == listed(before + symbol_views(symbols@)),
{
    let ghost all = symbol_views(symbols@);
    let mut i: usize = 0;
    assert(before + all.take(0) =~= before);
    while i < symbols.len()
        invariant
            i <= symbols@.len(),
            all == symbol_views(symbols@),
            rows(syms@) == listed(before + all.take(i as int)),
        decreases symbols@.len() - i,
    {
        let ghost prior = rows(syms@);
        let ghost now = before + all.take(i + 1);
        assert(now.drop_last() =~= before + all.take(i as int));
        assert(now.last() == symbols@[i as int]@);
        let price: u64 = base_price(symbols[i].code.as_str());
        let sym = SymState {
            code: symbols[i].code.clone(),
            price,
            day_open: price,
            etf: symbols[i].etf,
        };
        match find(syms, symbols[i].code.as_str()) {
            Some(k) => {
                syms.set(k, sym);
                assert(rows(syms@) =~= prior.update(k as int, sym@));
            },
            None => {
                syms.push(sym);
                assert(rows(syms@) =~= prior.push(sym@));
            },
        }
        i += 1;
    }
    assert(all.take(i as int) =~= all);
}

/// The step in which a code's price moves.
pub open spec fn step_of(sym: SymView) -> int {
    if sym.etf {
        5
    } else {
        band_tick(sym.price as int)
    }
}

/// What a code is offered at: one step above its price.
pub open spec fn ask_of(sym: SymView) -> u64 {
    capped(sym.price + step_of(sym))
}

/// What is bid for a code: one step below its price, and one step at least.
pub open spec fn bid_of(sym: SymView) -> u64 {
    if sym.price >= 2 * step_of(sym) {
        (sym.price - step_of(sym)) as u64
    } else {
        step_of(sym) as u64
    }
}

fn ask_price(sym: &SymState) -> (price: u64)
    ensures
        price == ask_of(sym@),
{
    let tick: u64 = tick_size(sym.price, sym.etf);
    if sym.price <= u64::MAX - tick {
        sym.price + tick
    } else {
        u64::MAX
    }
}

fn bid_price(sym: &SymState) -> (price: u64)
    ensures
        price == bid_of(sym@),
{
    let tick: u64 = tick_size(sym.price, sym.etf);
    if sym.price >= 2 * tick {
        sym.price - tick
    } else {
        tick
    }
}

/// A quotient without its fraction, as near as fits.
pub open spec fn near_quotient(n: int, d: int) -> i64 {
    let q = if n >= 0 {
        n / d
    } else {
        -(-n / d)
    };
    if q > i64::MAX {
        i64::MAX
    } else if q < i64::MIN {
        i64::MIN
    } else {
        q as i64
    }
}

/// How far a price is above another, in billionths of a percent.
pub open spec fn rate_over(price: int, base: int) -> i64 {
    near_quotient((price - base) * 100_000_000_000, base)
}

fn to_rate_over(price: u128, base: u128) -> (rate: i64)
    requires
        0 < base <= 0x1_0000_0000_0000_0000_0000,
        price <= 0x1_0000_0000_0000_0000_0000,
    ensures
        rate == rate_over(price as int, base as int),
{
    if price >= base {
        let q: u128 = (price - base) * 100_000_000_000 / base;
        if q <= i64::MAX as u128 {
            q as i64
        } else {
            i64::MAX
        }
    } else {
        let q: u128 = (base - price) * 100_000_000_000 / base;
        proof {
            assert((base - price) * 100_000_000_000 / (base as int) <= 100_000_000_000)
                by (nonlinear_arith)
                requires
                    0 <= price < base,
            ;
        }
        -(q as i64)
    }
}

/// How far a price is pulled back to that of the day's beginning, as a multiple of the step with the
/// day's beginning as the denominator: by a whole step from two percent on.
pub open spec fn pull(sym: SymView) -> int {
    let pulled = 50 * (sym.day_open - sym.price);
    if pulled > sym.day_open {
        sym.day_open as int
    } else if pulled < -sym.day_open {
        -sym.day_open
    } else {
        pulled
    }
}

/// A code's price after some steps and the pull, rounded to whole steps, one at least.
pub open spec fn walked(sym: SymView, steps: int) -> int {
    let t = step_of(sym);
    let n = sym.price * sym.day_open + (steps * sym.day_open + pull(sym)) * t;
    let d = t * sym.day_open;
    let rounded = (2 * n + d) / (2 * d) * t;
    if rounded < t {
        t
    } else {
        rounded
    }
}

/// A price that a walk leads to another that can be counted.
pub open spec fn walkable(sym: SymView, steps: int) -> bool {
    0 < sym.day_open && walked(sym, steps) <= u64::MAX
}

/// A price is walked from the whole steps below it.
proof fn lemma_walk_from_step(price: int, open: int, t: int, moves: int)
    requires
        0 <= price,
        0 < open,
        0 < t,
    ensures
        ({
            let d = t * open;
            let rest = price % t * open + moves * t;
            (2 * (price * open + moves * t) + d) / (2 * d) == price / t + (2 * rest + d) / (2 * d)
        }),
{
    let d = t * open;
    let q = price / t;
    let rest = price % t * open + moves * t;
    vstd::arithmetic::div_mod::lemma_fundamental_div_mod(price, t);
    assert(price * open == q * d + price % t * open) by (nonlinear_arith)
        requires
            price == t * q + price % t,
            d == t * open,
    ;
    assert(0 < d) by (nonlinear_arith)
        requires
            d == t * open,
            0 < t,
            0 < open,
    ;
    assert(2 * (price * open + moves * t) + d == (2 * rest + d) + q * (2 * d)) by (nonlinear_arith)
        requires
            price * open == q * d + price % t * open,
            rest == price % t * open + moves * t,
    ;
    vstd::arithmetic::div_mod::lemma_hoist_over_denominator(2 * rest + d, q, (2 * d) as nat);
}

fn walk_price(sym: &SymState, steps: i64) -> (price: u64)
    requires
        walkable(sym@, steps as int),
        -2 <= steps <= 2,
    ensures
        price == walked(sym@, steps as int),
{
    let tick: u64 = tick_size(sym.price, sym.etf);
    let t: i128 = tick as i128;
    let open: i128 = sym.day_open as i128;
    let pulled: i128 = 50 * (open - sym.price as i128);
    let pull: i128 = if pulled > open {
        open
    } else if pulled < -open {
        -open
    } else {
        pulled
    };
    assert(-2 * open <= steps * open <= 2 * open) by (nonlinear_arith)
        requires
            -2 <= steps <= 2,
            0 < open,
    ;
    let moves: i128 = steps as i128 * open + pull;
    let whole: u64 = sym.price / tick;
    let left: i128 = (sym.price % tick) as i128;
    proof {
        assert(-3 * (open * t) <= moves * t <= 3 * (open * t)) by (nonlinear_arith)
            requires
                -3 * open <= moves <= 3 * open,
                0 < t,
        ;
        assert(open <= open * t <= 1_000 * open) by (nonlinear_arith)
            requires
                0 < open,
                1 <= t <= 1_000,
        ;
        assert(0 <= left * open <= 1_000 * open) by (nonlinear_arith)
            requires
                0 < open,
                0 <= left <= 1_000,
        ;
        assert(t * open == open * t) by (nonlinear_arith);
        lemma_walk_from_step(sym.price as int, open as int, t as int, moves as int);
    }
    let rest: i128 = left * open + moves * t;
    let d: i128 = t * open;
    let doubled: i128 = 2 * rest + d;
    let more: i128 = match doubled.checked_div_euclid(2 * d) {
        Some(more) => more,
        None => 0,
    };
    let ghost quotient = doubled as int / (2 * d);
    proof {
        assert(-10_000 <= quotient <= 10_000) by (nonlinear_arith)
            requires
                quotient == doubled as int / (2 * d),
                -10_000 * (2 * d) <= doubled <= 10_000 * (2 * d),
                0 < d,
        ;
    }
    let count: i128 = whole as i128 + more;
    assert(count * t <= 0x1_0000_0000_0000_2710 * 1_000 && count * t >= -10_000 * 1_000)
        by (nonlinear_arith)
        requires
            -10_000 <= count <= 0x1_0000_0000_0000_2710,
            0 < t <= 1_000,
    ;
    let rounded: i128 = count * t;
    if rounded < t {
        tick
    } else {
        rounded as u64
    }
}

/// What a code's quote says. The market has as many shares as anyone wants at its two prices.
pub open spec fn quote_of(sym: SymView, volume: u64, ts: i64, micros: u64) -> QuoteView {
    QuoteView {
        code: sym.code,
        price: sym.price,
        change_rate: rate_over(sym.price as int, sym.day_open as int),
        ask1: ask_of(sym),
        bid1: bid_of(sym),
        ask1_qty: 100_000,
        bid1_qty: 100_000,
        volume,
        trade_sequence: micros,
        received_at_micros: micros,
        trade_ts: ts,
        book_ts: ts,
    }
}

/// Every code had a price when the day began.
pub open spec fn opened_all(syms: Seq<SymView>) -> bool {
    forall|i: int| 0 <= i < syms.len() ==> (#[trigger] syms[i]).day_open > 0
}

/// What shares are worth each, in ten-thousandths of a won: the code's price, or, where it has none,
/// what they cost.
pub open spec fn worth(syms: Seq<SymView>, row: HeldView) -> int {
    let i = place::<SymState>(syms, row.code);
    if i < syms.len() {
        syms[i].price * 10_000
    } else {
        row.avg as int
    }
}

/// What a position shows.
pub open spec fn shown(syms: Seq<SymView>) -> spec_fn(HeldView) -> Option<HoldingView> {
    |row: HeldView|
        if row.qty == 0 {
            None
        } else {
            Some(
                HoldingView {
                    code: row.code,
                    qty: row.qty,
                    avg_price: row.avg,
                    eval_pnl: ((worth(syms, row) - row.avg) * row.qty) as i128,
                    pnl_rate: if row.avg > 0 {
                        rate_over(worth(syms, row), row.avg as int)
                    } else {
                        0
                    },
                },
            )
        }
}

/// The average price of shares held and bought together, in ten-thousandths of a won. Where there
/// are none of either, there is no price.
pub open spec fn mean_price(qty: int, avg: int, bought: int, price: int) -> u64 {
    if qty + bought == 0 {
        0
    } else {
        capped((avg * qty + price * 10_000 * bought) / (qty + bought))
    }
}

/// Positions after shares of a code were bought.
pub open spec fn bought(positions: Seq<HeldView>, code: Seq<char>, qty: u64, price: u64) -> Seq<
    HeldView,
> {
    let i = place::<Holding>(positions, code);
    if i < positions.len() {
        let row = positions[i];
        positions.update(
            i,
            HeldView {
                code: row.code,
                qty: (row.qty + qty) as u64,
                avg: mean_price(row.qty as int, row.avg as int, qty as int, price as int),
            },
        )
    } else {
        positions.push(HeldView { code, qty, avg: mean_price(0, 0, qty as int, price as int) })
    }
}

/// What the shares of a code that are held have cost, in ten-thousandths of a won.
pub open spec fn cost_held(positions: Seq<HeldView>, code: Seq<char>) -> int {
    let i = place::<Holding>(positions, code);
    if i < positions.len() {
        positions[i].avg * positions[i].qty
    } else {
        0
    }
}

/// Whether an order to buy is filled: the limit is at the offer or above, and the cash is enough.
pub open spec fn fills_at(market: MarketView, code: Seq<char>, qty: u64, limit_price: u64) -> bool {
    let i = place::<SymState>(market.syms, code);
    i < market.syms.len() && limit_price >= ask_of(market.syms[i]) && ask_of(market.syms[i]) * qty
        <= market.cash
}

/// The fill of an order that is settled at once.
pub open spec fn fill_now(code: Seq<char>, side: Side, qty: u64, price: u64, at: i64) -> FillEventView {
    FillEventView {
        fill_id: (if side == Side::Buy {
            "DEMO-BUY-"@
        } else {
            "DEMO-SELL-"@
        }) + code,
        order_no: if side == Side::Buy {
            "DEMO-BUY"@
        } else {
            "DEMO-SELL"@
        },
        original_order_no: Seq::empty(),
        org_no: "DEMO-ORG"@,
        code,
        side,
        qty,
        price: capped(price * 10_000),
        filled_at: at,
        status: "filled"@,
    }
}

fn write_fill_now(code: &str, side: Side, qty: u64, price: u64, at: i64) -> (fill: FillEvent)
    ensures
        fill@ == fill_now(code@, side, qty, price, at),
{
    let buys = side == Side::Buy;
    let price: u64 = if price <= u64::MAX / 10_000 {
        price * 10_000
    } else {
        u64::MAX
    };
    FillEvent {
        fill_id: joined(
            if buys {
                "DEMO-BUY-"
            } else {
                "DEMO-SELL-"
            },
            code,
        ),
        order_no: if buys {
            "DEMO-BUY".to_owned()
        } else {
            "DEMO-SELL".to_owned()
        },
        original_order_no: String::new(),
        org_no: "DEMO-ORG".to_owned(),
        code: code.to_owned(),
        side,
        qty,
        price,
        filled_at: at,
        status: "filled".to_owned(),
    }
}

fn to_mean_price(qty: u64, avg: u64, bought: u64, price: u64) -> (mean: u64)
    requires
        avg * qty + price * 10_000 * bought <= u128::MAX,
    ensures
        mean == mean_price(qty as int, avg as int, bought as int, price as int),
{
    if qty == 0 && bought == 0 {
        return 0;
    }
    proof {
        assert(0 <= avg * qty) by (nonlinear_arith);
        assert(0 <= price * 10_000 * bought) by (nonlinear_arith);
    }
    let total: u128 = avg as u128 * qty as u128 + price as u128 * 10_000 * bought as u128;
    let mean: u128 = total / (qty as u128 + bought as u128);
    if mean <= u64::MAX as u128 {
        mean as u64
    } else {
        u64::MAX
    }
}

fn buy_held(positions: &mut Vec<Holding>, code: &str, qty: u64, price: u64)
    requires
        held(rows(old(positions)@), code@) + qty <= u64::MAX,
        cost_held(rows(old(positions)@), code@) + price * 10_000 * qty <= u128::MAX,
    ensures
        rows(final(positions)@) == bought(rows(old(positions)@), code@, qty, price),
{
    let ghost before = rows(positions@);
    match find(positions, code) {
        Some(i) => {
            assert(before[i as int] == positions@[i as int]@);
            let row = Holding {
                code: positions[i].code.clone(),
                qty: positions[i].qty + qty,
                avg: to_mean_price(positions[i].qty, positions[i].avg, qty, price),
            };
            positions.set(i, row);
            assert(rows(positions@) =~= before.update(i as int, row@));
        },
        None => {
            let row = Holding { code: code.to_owned(), qty, avg: to_mean_price(0, 0, qty, price) };
            positions.push(row);
            assert(rows(positions@) =~= before.push(row@));
        },
    }
}

proof fn lemma_held_row(positions: Seq<HeldView>, i: int)
    requires
        unique::<Holding>(positions),
        0 <= i < positions.len(),
    ensures
        held(positions, positions[i].code) == positions[i].qty,
{
    lemma_place::<Holding>(positions, positions[i].code, i);
}

proof fn lemma_held_none(positions: Seq<HeldView>, code: Seq<char>)
    requires
        forall|i: int| 0 <= i < positions.len() ==> (#[trigger] positions[i]).code != code,
    ensures
        place::<Holding>(positions, code) == positions.len(),
        held(positions, code) == 0,
{
    lemma_first_where(positions, keyed::<Holding>(code), positions.len() as int);
}

/// Selling what was bought leaves as many shares as there were before, of that code and of others.
pub proof fn round_trip_restores_shares(
    positions: Seq<HeldView>,
    code: Seq<char>,
    qty: u64,
    price: u64,
    other: Seq<char>,
)
    requires
        unique::<Holding>(positions),
        held(positions, code) + qty <= u64::MAX,
        qty > 0,
    ensures
        held(sold(bought(positions, code, qty, price), code, qty), other) == held(positions, other),
{
    let i = place::<Holding>(positions, code);
    let grown = bought(positions, code, qty, price);
    let after = sold(grown, code, qty);
    lemma_first_where_bounds(positions, keyed::<Holding>(code));
    if i >= positions.len() {
        assert forall|j: int| 0 <= j < positions.len() implies !keyed::<Holding>(code)(
            #[trigger] grown[j],
        ) by {
            assert(grown[j] == positions[j]);
        }
        lemma_first_where(grown, keyed::<Holding>(code), positions.len() as int);
        assert(after =~= positions);
    } else {
        assert(unique::<Holding>(grown));
        lemma_place::<Holding>(grown, code, i);
        assert(after =~= (if positions[i].qty == 0 {
            positions.remove(i)
        } else {
            grown.update(i, HeldView { qty: positions[i].qty, ..grown[i] })
        }));
        if exists|j: int| 0 <= j < positions.len() && positions[j].code == other {
            let j = choose|j: int| 0 <= j < positions.len() && positions[j].code == other;
            lemma_held_row(positions, j);
            if positions[i].qty > 0 {
                lemma_held_row(after, j);
            } else if j != i {
                lemma_held_row(
                    after,
                    if j < i {
                        j
                    } else {
                        j - 1
                    },
                );
            } else {
                lemma_held_none(after, other);
            }
        } else {
            lemma_held_none(positions, other);
            lemma_held_none(after, other);
        }
    }
}

impl MockMarket {
    /// A market of the codes on the desk, each at the price that it begins with.
    pub fn new(settings: &Settings) -> (market: Self)
        ensures
            market@ == (MarketView {
                syms: listed(settings@.chart_symbols + settings@.trade_symbols),
                cash: INITIAL_CASH,
                positions: Seq::empty(),
                resting_sells: Seq::empty(),
            }),
    {
        let mut syms: Vec<SymState> = Vec::new();
        let ghost none = Seq::<SymbolView>::empty();
        assert(rows(syms@) =~= listed(none));
        list_symbols(&mut syms, &settings.chart_symbols, Ghost(none));
        assert(none + settings@.chart_symbols =~= settings@.chart_symbols);
        list_symbols(&mut syms, &settings.trade_symbols, Ghost(settings@.chart_symbols));
        let market = MockMarket {
            syms,
            cash: INITIAL_CASH,
            positions: Vec::new(),
            resting_sells: Vec::new(),
        };
        assert(market@.positions =~= Seq::empty());
        assert(market@.resting_sells =~= Seq::empty());
        market
    }

    /// The quote of a code: none where the market does not have it.
    pub fn quote(&self, code: &str, volume: u64, ts: i64, micros: u64) -> (quote: Option<Quote>)
        requires
            opened_all(self@.syms),
        ensures
            ({
                let i = place::<SymState>(self@.syms, code@);
                if i < self@.syms.len() {
                    quote matches Some(q) && q@ == quote_of(self@.syms[i], volume, ts, micros)
                } else {
                    quote is None
                }
            }),
    {
        match find(&self.syms, code) {
            Some(i) => {
                let sym = &self.syms[i];
                assert(self@.syms[i as int] == sym@);
                Some(
                    Quote {
                        code: code.to_owned(),
                        price: sym.price,
                        change_rate: to_rate_over(sym.price as u128, sym.day_open as u128),
                        ask1: ask_price(sym),
                        bid1: bid_price(sym),
                        ask1_qty: 100_000,
                        bid1_qty: 100_000,
                        volume,
                        trade_sequence: micros,
                        received_at_micros: micros,
                        trade_ts: ts,
                        book_ts: ts,
                    },
                )
            },
            None => None,
        }
    }

    /// Moves the price of a code by some steps, drawn at random from those that are allowed.
    pub fn walk(&mut self, code: &str, steps: i64)
        requires
            -2 <= steps <= 2,
            ({
                let i = place::<SymState>(old(self)@.syms, code@);
                i < old(self)@.syms.len() ==> walkable(old(self)@.syms[i], steps as int)
            }),
        ensures
            ({
                let i = place::<SymState>(old(self)@.syms, code@);
                if i < old(self)@.syms.len() {
                    let sym = old(self)@.syms[i];
                    final(self)@ == (MarketView {
                        syms: old(self)@.syms.update(
                            i,
                            SymView { price: walked(sym, steps as int) as u64, ..sym },
                        ),
                        ..old(self)@
                    })
                } else {
                    final(self)@ == old(self)@
                }
            }),
    {
        let ghost before = self@;
        if let Some(i) = find(&self.syms, code) {
            assert(before.syms[i as int] == self.syms@[i as int]@);
            let sym = SymState {
                code: self.syms[i].code.clone(),
                price: walk_price(&self.syms[i], steps),
                day_open: self.syms[i].day_open,
                etf: self.syms[i].etf,
            };
            self.syms.set(i, sym);
            assert(self@.syms =~= before.syms.update(i as int, sym@));
        }
    }

    /// The quote of a code while nothing trades.
    pub fn snapshot(&self, code: &str, now: i64, micros: u64) -> (quote: Result<Quote, AppError>)
        requires
            opened_all(self@.syms),
        ensures
            ({
                let i = place::<SymState>(self@.syms, code@);
                if i < self@.syms.len() {
                    quote matches Ok(q) && q@ == quote_of(self@.syms[i], 0, now, micros)
                } else {
                    quote matches Err(error) && is_config(error, "데모에 없는 종목: "@ + code@)
                }
            }),
    {
        match self.quote(code, 0, now, micros) {
            Some(quote) => Ok(quote),
            None => Err(AppError::Config(joined("데모에 없는 종목: ", code))),
        }
    }

    /// The cash and the positions of which there are shares.
    pub fn account(&self) -> (account: AccountSnapshot)
        requires
            forall|i: int|
                0 <= i < self@.positions.len() ==> i128::MIN <= (worth(
                    self@.syms,
                    #[trigger] self@.positions[i],
                ) - self@.positions[i].avg) * self@.positions[i].qty <= i128::MAX,
        ensures
            account.cash == self.cash,
            rows(account.positions@) == filter_mapped(self@.positions, shown(self@.syms)),
    {
        let ghost all = self@.positions;
        let ghost f = shown(self@.syms);
        let mut positions: Vec<Position> = Vec::new();
        let mut i: usize = 0;
        assert(all.take(0) =~= Seq::empty());
        assert(rows(positions@) =~= Seq::empty());
        while i < self.positions.len()
            invariant
                i <= self.positions@.len(),
                all == self@.positions,
                f == shown(self@.syms),
                rows(positions@) == filter_mapped(all.take(i as int), f),
                forall|i: int|
                    0 <= i < all.len() ==> i128::MIN <= (worth(self@.syms, #[trigger] all[i])
                        - all[i].avg) * all[i].qty <= i128::MAX,
            decreases self.positions@.len() - i,
        {
            let ghost before = rows(positions@);
            let row = &self.positions[i];
            proof {
                lemma_filter_mapped_step(all, f, i as int);
                assert(all[i as int] == row@);
            }
            if row.qty > 0 {
                let price: u128 = match find(&self.syms, row.code.as_str()) {
                    Some(k) => {
                        assert(self@.syms[k as int] == self.syms@[k as int]@);
                        self.syms[k].price as u128 * 10_000
                    },
                    None => row.avg as u128,
                };
                assert(price == worth(self@.syms, row@));
                let gain: i128 = price as i128 - row.avg as i128;
                let position = Position {
                    code: row.code.clone(),
                    qty: row.qty,
                    avg_price: row.avg,
                    eval_pnl: gain * row.qty as i128,
                    pnl_rate: if row.avg > 0 {
                        to_rate_over(price, row.avg as u128)
                    } else {
                        0
                    },
                };
                positions.push(position);
                assert(rows(positions@) =~= before.push(position@));
            }
            i += 1;
        }
        assert(all.take(i as int) =~= all);
        AccountSnapshot { cash: self.cash, positions }
    }

    /// How many shares the cash buys at a price.
    pub fn max_buy_qty(&self, limit_price: u64) -> (qty: u64)
        ensures
            qty == (if limit_price == 0 {
                0
            } else {
                self.cash / limit_price
            }),
    {
        if limit_price == 0 {
            0
        } else {
            self.cash / limit_price
        }
    }

    /// Buys at once what is offered within the limit. Below the offer nothing is bought, and nothing
    /// of the order stays.
    pub fn place_buy(&mut self, code: &str, qty: u64, limit_price: u64, now: i64) -> (result: Result<
        (OrderAck, Option<FillEvent>),
        AppError,
    >)
        requires
            fills_at(old(self)@, code@, qty, limit_price) ==> held(old(self)@.positions, code@)
                + qty <= u64::MAX,
            fills_at(old(self)@, code@, qty, limit_price) ==> cost_held(
                old(self)@.positions,
                code@,
            ) + old(self)@.cash * 10_000 <= u128::MAX,
        ensures
            ({
                let i = place::<SymState>(old(self)@.syms, code@);
                let ask = ask_of(old(self)@.syms[i]);
                if i >= old(self)@.syms.len() {
                    &&& result matches Err(error) && is_refused(
                        error,
                        "데모에 없는 종목: "@ + code@,
                    )
                    &&& final(self)@ == old(self)@
                } else if limit_price < ask {
                    &&& result matches Ok((ack, None)) && ack@ == answer(
                        "DEMO-IOC"@,
                        "IOC 미체결 — 잔량 자동취소"@,
                    )
                    &&& final(self)@ == old(self)@
                } else if ask * qty > old(self)@.cash {
                    &&& result matches Err(error) && is_refused(
                        error,
                        "주문가능금액 부족 (데모)"@,
                    )
                    &&& final(self)@ == old(self)@
                } else {
                    &&& result matches Ok((ack, Some(fill))) && ack@ == answer(
                        "DEMO-BUY"@,
                        "데모 체결"@,
                    ) && fill@ == fill_now(code@, Side::Buy, qty, ask, now)
                    &&& final(self)@ == (MarketView {
                        cash: (old(self)@.cash - ask * qty) as u64,
                        positions: bought(old(self)@.positions, code@, qty, ask),
                        ..old(self)@
                    })
                }
            }),
    {
        let ask: u64 = match find(&self.syms, code) {
            Some(i) => {
                assert(self@.syms[i as int] == self.syms@[i as int]@);
                ask_price(&self.syms[i])
            },
            None => return Err(refused(joined("데모에 없는 종목: ", code).as_str())),
        };
        if limit_price < ask {
            return Ok((acknowledge("DEMO-IOC".to_owned(), "IOC 미체결 — 잔량 자동취소"), None));
        }
        proof {
            lemma_product_fits(ask, qty);
        }
        let cost: u128 = ask as u128 * qty as u128;
        if cost > self.cash as u128 {
            return Err(refused("주문가능금액 부족 (데모)"));
        }
        assert(ask * 10_000 * qty == ask * qty * 10_000) by (nonlinear_arith);
        self.cash = self.cash - cost as u64;
        buy_held(&mut self.positions, code, qty, ask);
        let fill = write_fill_now(code, Side::Buy, qty, ask, now);
        Ok((acknowledge("DEMO-BUY".to_owned(), "데모 체결"), Some(fill)))
    }

    /// Sells at once, at what is bid for the code.
    pub fn place_sell_market(&mut self, code: &str, qty: u64, now: i64) -> (result: Result<
        (OrderAck, FillEvent),
        AppError,
    >)
        ensures
            ({
                let i = place::<SymState>(old(self)@.syms, code@);
                let bid = bid_of(old(self)@.syms[i]);
                let have = held(old(self)@.positions, code@);
                if i >= old(self)@.syms.len() {
                    &&& result matches Err(error) && is_refused(
                        error,
                        "데모에 없는 종목: "@ + code@,
                    )
                    &&& final(self)@ == old(self)@
                } else if have < qty || qty == 0 {
                    &&& result matches Err(error) && is_refused(error, "보유 수량 부족 (데모)"@)
                    &&& final(self)@ == old(self)@
                } else {
                    &&& result matches Ok((ack, fill)) && ack@ == answer(
                        "DEMO-SELL"@,
                        "데모 체결"@,
                    ) && fill@ == fill_now(code@, Side::Sell, qty, bid, now)
                    &&& final(self)@ == (MarketView {
                        cash: capped(old(self)@.cash + bid * qty),
                        positions: sold(old(self)@.positions, code@, qty),
                        ..old(self)@
                    })
                }
            }),
    {
        let bid: u64 = match find(&self.syms, code) {
            Some(i) => {
                assert(self@.syms[i as int] == self.syms@[i as int]@);
                bid_price(&self.syms[i])
            },
            None => return Err(refused(joined("데모에 없는 종목: ", code).as_str())),
        };
        let have: u64 = held_of(&self.positions, code);
        if have < qty || qty == 0 {
            return Err(refused("보유 수량 부족 (데모)"));
        }
        self.cash = capped_product(self.cash, bid, qty);
        sell_held(&mut self.positions, code, qty);
        let fill = write_fill_now(code, Side::Sell, qty, bid, now);
        Ok((acknowledge("DEMO-SELL".to_owned(), "데모 체결"), fill))
    }

    /// Places a sale that waits for its price, in place of the one of that code before it.
    pub fn place_sell_limit(&mut self, code: &str, qty: u64, limit_price: u64) -> (result: Result<
        OrderAck,
        AppError,
    >)
        ensures
            ({
                let have = held(old(self)@.positions, code@);
                let i = place::<RestingSell>(old(self)@.resting_sells, code@);
                let sell = RestingView {
                    code: code@,
                    qty,
                    limit_price,
                    order_no: "DEMO-RESV-"@ + code@,
                };
                match result {
                    Ok(ack) => {
                        &&& have >= qty > 0
                        &&& ack@ == answer("DEMO-RESV-"@ + code@, "데모 예약 접수"@)
                        &&& final(self)@ == (MarketView {
                            resting_sells: if i < old(self)@.resting_sells.len() {
                                old(self)@.resting_sells.update(i, sell)
                            } else {
                                old(self)@.resting_sells.push(sell)
                            },
                            ..old(self)@
                        })
                    },
                    Err(error) => {
                        &&& have < qty || qty == 0
                        &&& is_refused(error, "보유 수량 부족 (데모)"@)
                        &&& final(self)@ == old(self)@
                    },
                }
            }),
    {
        let ghost before = self@;
        let have: u64 = held_of(&self.positions, code);
        if have < qty || qty == 0 {
            return Err(refused("보유 수량 부족 (데모)"));
        }
        let order_no = joined("DEMO-RESV-", code);
        let sell = RestingSell {
            code: code.to_owned(),
            qty,
            limit_price,
            order_no: order_no.clone(),
        };
        match find(&self.resting_sells, code) {
            Some(i) => {
                self.resting_sells.set(i, sell);
                assert(self@.resting_sells =~= before.resting_sells.update(i as int, sell@));
            },
            None => {
                self.resting_sells.push(sell);
                assert(self@.resting_sells =~= before.resting_sells.push(sell@));
            },
        }
        Ok(acknowledge(order_no, "데모 예약 접수"))
    }

    /// Takes back the sale of a code that waits.
    pub fn cancel_order(&mut self, code: &str) -> (result: Result<OrderAck, AppError>)
        ensures
            ({
                let i = place::<RestingSell>(old(self)@.resting_sells, code@);
                match result {
                    Ok(ack) => {
                        &&& i < old(self)@.resting_sells.len()
                        &&& ack@ == answer(
                            old(self)@.resting_sells[i].order_no,
                            "데모 예약 취소"@,
                        )
                        &&& final(self)@ == (MarketView {
                            resting_sells: old(self)@.resting_sells.remove(i),
                            ..old(self)@
                        })
                    },
                    Err(error) => {
                        &&& i >= old(self)@.resting_sells.len()
                        &&& is_refused(error, "취소할 예약이 없습니다 (데모)"@)
                        &&& final(self)@ == old(self)@
                    },
                }
            }),
    {
        let ghost before = self@;
        match find(&self.resting_sells, code) {
            Some(i) => {
                assert(before.resting_sells[i as int] == self.resting_sells@[i as int]@);
                let sell = self.resting_sells.remove(i);
                assert(self@.resting_sells =~= before.resting_sells.remove(i as int));
                Ok(acknowledge(sell.order_no, "데모 예약 취소"))
            },
            None => Err(refused("취소할 예약이 없습니다 (데모)")),
        }
    }
}

/// Second of the day at which a session opens.
pub const SESSION_OPEN: i64 = 32_400;

/// Minutes of a session, from nine to half past three.
pub const SESSION_MINUTES: i64 = 390;

/// The last day at a midnight or before it that is not at a weekend.
pub open spec fn trading_day(day: int) -> int {
    if !weekend(day) {
        day
    } else if !weekend(day - 86_400) {
        day - 86_400
    } else {
        day - 2 * 86_400
    }
}

/// The day of a session, counted back from the last one.
pub open spec fn session_day(last: int, back: nat) -> int
    decreases back,
{
    if back == 0 {
        trading_day(last)
    } else {
        trading_day(session_day(last, (back - 1) as nat) - 86_400)
    }
}

/// The day whose session may be the last to have opened by a moment.
pub open spec fn last_day(now: int) -> int {
    if second_of_day(now) < SESSION_OPEN {
        midnight(now) - 86_400
    } else {
        midnight(now)
    }
}

/// The minutes of a day's session that have begun by a moment.
pub open spec fn minutes_of_day(day: int, now: int) -> Seq<i64> {
    let open = day + SESSION_OPEN;
    let begun = if now < open {
        0
    } else {
        (now - open) / 60 + 1
    };
    Seq::new(
        if begun < SESSION_MINUTES {
            begun as nat
        } else {
            SESSION_MINUTES as nat
        },
        |i: int| (open + 60 * i) as i64,
    )
}

/// The minutes of so many sessions that have begun by a moment, the oldest first.
pub open spec fn minutes_of_days(last: int, days: nat, now: int) -> Seq<i64>
    decreases days,
{
    if days == 0 {
        Seq::empty()
    } else {
        minutes_of_day(session_day(last, (days - 1) as nat), now) + minutes_of_days(
            last,
            (days - 1) as nat,
            now,
        )
    }
}

proof fn lemma_session_days_fall(last: int, back: nat, more: nat)
    requires
        back <= more,
    ensures
        session_day(last, more) <= session_day(last, back) <= last,
    decreases more,
{
    if back < more {
        lemma_session_days_fall(last, back, (more - 1) as nat);
    } else if more > 0 {
        lemma_session_days_fall(last, (more - 1) as nat, (more - 1) as nat);
    }
}

fn to_trading_day(day: i64) -> (found: i64)
    requires
        on_calendar(day as int),
        second_of_day(day as int) == 0,
        trading_day(day as int) >= MIN_TIMESTAMP,
    ensures
        found == trading_day(day as int),
        second_of_day(found as int) == 0,
{
    if !is_weekend(day) {
        day
    } else if !is_weekend(day - 86_400) {
        day - 86_400
    } else {
        day - 2 * 86_400
    }
}

/// The minutes of the sessions of the last days that have begun by a moment, the oldest first. A day
/// before its session opens does not count.
#[verifier::rlimit(40)]
pub fn session_minutes(now: i64, days: usize) -> (minutes: Vec<i64>)
    requires
        on_calendar(now as int),
        days > 0 ==> session_day(last_day(now as int), (days - 1) as nat) - 86_400 >= MIN_TIMESTAMP,
    ensures
        minutes@ == minutes_of_days(last_day(now as int), days as nat, now as int),
{
    let ghost last = last_day(now as int);
    let mut minutes: Vec<i64> = Vec::new();
    if days == 0 {
        assert(minutes@ =~= minutes_of_days(last, 0, now as int));
        return minutes;
    }
    let second: i64 = match now.checked_rem_euclid(86_400) {
        Some(second) => second,
        None => 0,
    };
    let today: i64 = now - second;
    let mut day: i64 = if second < SESSION_OPEN {
        today - 86_400
    } else {
        today
    };
    let mut found: Vec<i64> = Vec::new();
    while found.len() < days
        invariant
            found@.len() <= days,
            days > 0,
            second_of_day(day as int) == 0,
            day <= now,
            on_calendar(now as int),
            session_day(last, (days - 1) as nat) - 86_400 >= MIN_TIMESTAMP,
            day == (if found@.len() == 0 {
                last
            } else {
                session_day(last, (found@.len() - 1) as nat) - 86_400
            }),
            forall|k: int| 0 <= k < found@.len() ==> #[trigger] found@[k] == session_day(last, k as nat),
        decreases days - found@.len(),
    {
        proof {
            lemma_session_days_fall(last, found@.len() as nat, (days - 1) as nat);
        }
        let next = to_trading_day(day);
        found.push(next);
        day = next - 86_400;
    }
    let mut left: usize = days;
    assert(minutes@ + minutes_of_days(last, days as nat, now as int) =~= minutes_of_days(
        last,
        days as nat,
        now as int,
    ));
    while left > 0
        invariant
            left <= days,
            found@.len() == days,
            on_calendar(now as int),
            session_day(last, (days - 1) as nat) - 86_400 >= MIN_TIMESTAMP,
            last <= now,
            forall|k: int| 0 <= k < found@.len() ==> #[trigger] found@[k] == session_day(last, k as nat),
            minutes@ + minutes_of_days(last, left as nat, now as int) == minutes_of_days(
                last,
                days as nat,
                now as int,
            ),
        decreases left,
    {
        left -= 1;
        let opens: i64 = found[left] + SESSION_OPEN;
        proof {
            lemma_session_days_fall(last, left as nat, (days - 1) as nat);
        }
        let ghost before = minutes@;
        let ghost here = minutes_of_day(found@[left as int] as int, now as int);
        let ghost rest = minutes_of_days(last, left as nat, now as int);
        assert(minutes_of_days(last, (left + 1) as nat, now as int) == here + rest);
        let mut i: i64 = 0;
        while i < SESSION_MINUTES && opens + 60 * i <= now
            invariant
                0 <= i <= here.len(),
                on_calendar(now as int),
                opens <= now + SESSION_OPEN,
                MIN_TIMESTAMP <= opens,
                left < found@.len(),
                opens == found@[left as int] + SESSION_OPEN,
                here == minutes_of_day(found@[left as int] as int, now as int),
                minutes@ == before + here.take(i as int),
            decreases SESSION_MINUTES - i,
        {
            minutes.push(opens + 60 * i);
            i += 1;
            assert(here.take(i as int) =~= here.take(i - 1).push(here[i - 1]));
        }
        assert(here.take(i as int) =~= here);
        assert(before + (here + rest) =~= (before + here) + rest);
    }
    assert(minutes@ + minutes_of_days(last, 0, now as int) =~= minutes@);
    minutes
}

proof fn lemma_sold(positions: Seq<HeldView>, code: Seq<char>, qty: u64, other: Seq<char>)
    requires
        unique::<Holding>(positions),
        0 < qty <= held(positions, code),
    ensures
        unique::<Holding>(sold(positions, code, qty)),
        held(sold(positions, code, qty), code) == held(positions, code) - qty,
        other != code ==> held(sold(positions, code, qty), other) == held(positions, other),
{
    let i = place::<Holding>(positions, code);
    lemma_first_where_bounds(positions, keyed::<Holding>(code));
    let after = sold(positions, code, qty);
    assert(i < positions.len());
    assert(positions[i].code == code) by {
        assert(keyed::<Holding>(code)(positions[i]));
    }
    if positions[i].qty == qty {
        assert forall|a: int, b: int|
            #![trigger after[a], after[b]]
            0 <= a < b < after.len() implies after[a].code != after[b].code by {
            let x = if a < i {
                a
            } else {
                a + 1
            };
            let y = if b < i {
                b
            } else {
                b + 1
            };
            assert(after[a] == positions[x] && after[b] == positions[y]);
            assert(Holding::key_of(positions[x]) != Holding::key_of(positions[y]));
        }
        assert forall|a: int| 0 <= a < after.len() implies (#[trigger] after[a]).code != code by {
            let x = if a < i {
                a
            } else {
                a + 1
            };
            assert(after[a] == positions[x]);
            if x < i {
                assert(Holding::key_of(positions[x]) != Holding::key_of(positions[i]));
            } else {
                assert(Holding::key_of(positions[i]) != Holding::key_of(positions[x]));
            }
        }
        lemma_held_none(after, code);
        if other != code {
            if exists|j: int| 0 <= j < positions.len() && positions[j].code == other {
                let j = choose|j: int| 0 <= j < positions.len() && positions[j].code == other;
                let k = if j < i {
                    j
                } else {
                    j - 1
                };
                assert(after[k] == positions[j]);
                lemma_held_row(positions, j);
                lemma_held_row(after, k);
            } else {
                lemma_held_none(positions, other);
                assert forall|a: int| 0 <= a < after.len() implies (#[trigger] after[a]).code
                    != other by {
                    assert(after[a] == positions[if a < i {
                        a
                    } else {
                        a + 1
                    }]);
                }
                lemma_held_none(after, other);
            }
        }
    } else {
        lemma_unique_update::<Holding>(positions, i, after[i]);
        lemma_held_row(after, i);
        lemma_other_rows(positions, after, i, other, code);
    }
}

proof fn lemma_other_rows(
    before: Seq<HeldView>,
    after: Seq<HeldView>,
    i: int,
    other: Seq<char>,
    code: Seq<char>,
)
    requires
        unique::<Holding>(before),
        unique::<Holding>(after),
        0 <= i < before.len(),
        before[i].code == code,
        after.len() == before.len(),
        after[i].code == code,
        forall|j: int| 0 <= j < before.len() && j != i ==> #[trigger] after[j] == before[j],
    ensures
        other != code ==> held(after, other) == held(before, other),
{
    if other != code {
        if exists|j: int| 0 <= j < before.len() && before[j].code == other {
            let j = choose|j: int| 0 <= j < before.len() && before[j].code == other;
            assert(after[j] == before[j]);
            lemma_held_row(before, j);
            lemma_held_row(after, j);
        } else {
            lemma_held_none(before, other);
            assert forall|a: int| 0 <= a < after.len() implies (#[trigger] after[a]).code
                != other by {
                if a != i {
                    assert(after[a] == before[a]);
                }
            }
            lemma_held_none(after, other);
        }
    }
}

/// A sale takes its shares from those of its code, and from no other.
pub proof fn sale_takes_shares_of_its_code(
    positions: Seq<HeldView>,
    code: Seq<char>,
    qty: u64,
    other: Seq<char>,
)
    requires
        unique::<Holding>(positions),
        0 < qty <= held(positions, code),
    ensures
        held(sold(positions, code, qty), code) == held(positions, code) - qty,
        other != code ==> held(sold(positions, code, qty), other) == held(positions, other),
        unique::<Holding>(sold(positions, code, qty)),
{
    lemma_sold(positions, code, qty, other);
}

/// A purchase adds its shares to those of its code, at an average price that all of them cost, less
/// what is left of a ten-thousandth; no other code changes.
pub proof fn purchase_adds_shares_of_its_code(
    positions: Seq<HeldView>,
    code: Seq<char>,
    qty: u64,
    price: u64,
    other: Seq<char>,
)
    requires
        unique::<Holding>(positions),
        held(positions, code) + qty <= u64::MAX,
        qty > 0,
        cost_held(positions, code) + price * 10_000 * qty <= u64::MAX,
    ensures
        ({
            let after = bought(positions, code, qty, price);
            let spent = cost_held(positions, code) + price * 10_000 * qty;
            &&& held(after, code) == held(positions, code) + qty
            &&& other != code ==> held(after, other) == held(positions, other)
            &&& spent - held(after, code) < cost_held(after, code) <= spent
            &&& unique::<Holding>(after)
        }),
{
    let i = place::<Holding>(positions, code);
    let after = bought(positions, code, qty, price);
    lemma_first_where_bounds(positions, keyed::<Holding>(code));
    let spent = cost_held(positions, code) + price * 10_000 * qty;
    let shares = held(positions, code) + qty;
    let mean = spent / shares;
    vstd::arithmetic::div_mod::lemma_fundamental_div_mod(spent, shares);
    vstd::arithmetic::div_mod::lemma_mod_bound(spent, shares);
    let p = price as int;
    let q = qty as int;
    assert(0 <= p * 10_000 * q) by (nonlinear_arith)
        requires
            p >= 0,
            q >= 0,
    ;
    if i < positions.len() {
        let row = positions[i];
        let a = row.avg as int;
        let b = row.qty as int;
        assert(0 <= a * b) by (nonlinear_arith)
            requires
                a >= 0,
                b >= 0,
        ;
    }
    vstd::arithmetic::div_mod::lemma_div_pos_is_pos(spent, shares);
    assert(mean <= spent && mean * shares == shares * mean) by (nonlinear_arith)
        requires
            spent == shares * mean + spent % shares,
            spent % shares >= 0,
            shares >= 1,
            mean >= 0,
    ;
    if i < positions.len() {
        assert(keyed::<Holding>(code)(positions[i]));
        assert(after[i].avg == mean);
        lemma_unique_update::<Holding>(positions, i, after[i]);
        lemma_held_row(after, i);
        lemma_place::<Holding>(after, code, i);
        lemma_other_rows(positions, after, i, other, code);
    } else {
        let n = positions.len() as int;
        assert forall|j: int| 0 <= j < n implies (#[trigger] positions[j]).code != code by {
            assert(!keyed::<Holding>(code)(positions[j]));
        }
        lemma_unique_push::<Holding>(positions, after[n]);
        assert(after[n].avg == mean) by {
            assert(0 * 0 == 0);
        }
        lemma_held_row(after, n);
        lemma_place::<Holding>(after, code, n);
        if other != code {
            if exists|j: int| 0 <= j < n && positions[j].code == other {
                let j = choose|j: int| 0 <= j < n && positions[j].code == other;
                assert(after[j] == positions[j]);
                lemma_held_row(positions, j);
                lemma_held_row(after, j);
            } else {
                lemma_held_none(positions, other);
                assert forall|a: int| 0 <= a < after.len() implies (#[trigger] after[a]).code
                    != other by {
                    if a < n {
                        assert(after[a] == positions[a]);
                    }
                }
                lemma_held_none(after, other);
            }
        }
    }
}

/// What fills of a code come to in shares.
pub open spec fn shares_filled(fills: Seq<FillEventView>, code: Seq<char>) -> int
    decreases fills.len(),
{
    if fills.len() == 0 {
        0
    } else {
        shares_filled(fills.drop_last(), code) + if fills.last().code == code {
            fills.last().qty as int
        } else {
            0
        }
    }
}

/// Whether a fill is of a sale that waited and whose price the market had reached, at that price.
pub open spec fn is_of_a_reached_sale(market: MarketView, fill: FillEventView) -> bool {
    exists|j: int|
        0 <= j < market.resting_sells.len() && reached(market.syms, #[trigger] market.resting_sells[j])
            && fill.code == market.resting_sells[j].code && fill.qty
            <= market.resting_sells[j].qty && (market.resting_sells[j].limit_price * 10_000
            <= u64::MAX ==> fill.price == market.resting_sells[j].limit_price * 10_000)
}

/// Settling sells only what was waiting and reached, at its own price. The shares that leave are
/// those of the fills, a sale that was not reached waits on, and no other does.
pub proof fn settling_sells_what_was_reached(market: MarketView, at: i64, n: int, code: Seq<char>)
    requires
        unique::<Holding>(market.positions),
        0 <= n <= market.resting_sells.len(),
    ensures
        ({
            let end = settled(market, at, n);
            &&& unique::<Holding>(end.positions)
            &&& held(market.positions, code) == held(end.positions, code) + shares_filled(
                end.fills,
                code,
            )
            &&& forall|i: int|
                0 <= i < end.fills.len() ==> is_of_a_reached_sale(market, #[trigger] end.fills[i])
                    && end.fills[i].side == Side::Sell && end.fills[i].qty > 0
                    && end.fills[i].filled_at == at
            &&& forall|i: int|
                0 <= i < end.kept.len() ==> !reached(market.syms, #[trigger] end.kept[i])
            &&& forall|j: int|
                0 <= j < n && !reached(market.syms, #[trigger] market.resting_sells[j])
                    ==> end.kept.contains(market.resting_sells[j])
        }),
    decreases n,
{
    if n > 0 {
        settling_sells_what_was_reached(market, at, n - 1, code);
        let before = settled(market, at, n - 1);
        let end = settled(market, at, n);
        let sell = market.resting_sells[n - 1];
        if !reached(market.syms, sell) {
            assert forall|j: int|
                0 <= j < n && !reached(market.syms, #[trigger] market.resting_sells[j]) implies
                end.kept.contains(market.resting_sells[j]) by {
                if j < n - 1 {
                    let k = choose|k: int|
                        0 <= k < before.kept.len() && before.kept[k] == market.resting_sells[j];
                    assert(end.kept[k] == market.resting_sells[j]);
                } else {
                    assert(end.kept[before.kept.len() as int] == sell);
                }
            }
        } else {
            let have = held(before.positions, sell.code);
            let qty = if sell.qty <= have {
                sell.qty
            } else {
                have
            };
            if qty > 0 {
                lemma_sold(before.positions, sell.code, qty, code);
                let fill = fill_of(sell, qty, at);
                assert(end.fills.drop_last() =~= before.fills);
                assert(is_of_a_reached_sale(market, fill)) by {
                    assert(reached(market.syms, market.resting_sells[n - 1]));
                }
                assert forall|i: int| 0 <= i < end.fills.len() implies is_of_a_reached_sale(
                    market,
                    #[trigger] end.fills[i],
                ) && end.fills[i].side == Side::Sell && end.fills[i].qty > 0
                    && end.fills[i].filled_at == at by {
                    if i < before.fills.len() {
                        assert(end.fills[i] == before.fills[i]);
                    }
                }
            }
        }
    }
}

/// A sale that is reached is filled with as many of its shares as are held, and brings its own price
/// for each.
pub proof fn reached_sale_is_filled(market: MarketView, at: i64, n: int)
    requires
        0 < n <= market.resting_sells.len(),
        reached(market.syms, market.resting_sells[n - 1]),
    ensures
        ({
            let before = settled(market, at, n - 1);
            let after = settled(market, at, n);
            let sell = market.resting_sells[n - 1];
            let have = held(before.positions, sell.code);
            &&& after.kept == before.kept
            &&& have == 0 || sell.qty == 0 ==> after.fills == before.fills && after.cash
                == before.cash
            &&& have > 0 && sell.qty > 0 ==> {
                let fill = after.fills.last();
                &&& after.fills.len() == before.fills.len() + 1
                &&& fill.code == sell.code
                &&& fill.qty == (if have < sell.qty {
                    have
                } else {
                    sell.qty
                })
                &&& before.cash + sell.limit_price * fill.qty <= u64::MAX ==> after.cash
                    == before.cash + sell.limit_price * fill.qty
            }
        }),
{
}

/// A sale is reached by a price at or above its own, of its own code.
pub proof fn sale_is_reached_from_its_price_on(syms: Seq<SymView>, i: int, sell: RestingView)
    requires
        unique::<SymState>(syms),
        0 <= i < syms.len(),
        syms[i].code == sell.code,
    ensures
        reached(syms, sell) <==> syms[i].price >= sell.limit_price,
{
    lemma_place::<SymState>(syms, sell.code, i);
}

/// The offer lies a step above the price and the bid a step below it, and one step at least; steps
/// are five won for an ETF and those of its price band for any other code.
pub proof fn offer_and_bid_are_a_step_away(sym: SymView)
    requires
        sym.price + 1_000 <= u64::MAX,
    ensures
        sym.etf ==> ask_of(sym) == sym.price + 5,
        !sym.etf ==> ask_of(sym) == sym.price + band_tick(sym.price as int),
        sym.etf && sym.price >= 10 ==> bid_of(sym) == sym.price - 5,
        !sym.etf && sym.price >= 2 ==> bid_of(sym) == sym.price - band_tick(sym.price as int),
        bid_of(sym) > 0,
        ask_of(sym) > sym.price,
{
}

/// A quote is of its code, at its price, with the offer above the bid, and says by how much the price
/// differs from that of the day's beginning: it rises with the price.
pub proof fn quote_tells_the_price(sym: SymView, volume: u64, ts: i64, micros: u64)
    requires
        sym.day_open > 0,
        sym.price < 90_000_000 * sym.day_open,
    ensures
        ({
            let q = quote_of(sym, volume, ts, micros);
            let gain = (sym.price - sym.day_open) * 100_000_000_000;
            &&& q.code == sym.code && q.price == sym.price
            &&& q.ask1 == ask_of(sym) && q.bid1 == bid_of(sym)
            &&& q.volume == volume && q.trade_ts == ts && q.book_ts == ts
            &&& q.trade_sequence == micros && q.received_at_micros == micros
            &&& sym.price >= sym.day_open ==> q.change_rate * sym.day_open <= gain < (q.change_rate
                + 1) * sym.day_open
            &&& sym.price < sym.day_open ==> (q.change_rate - 1) * sym.day_open < gain
                <= q.change_rate * sym.day_open
        }),
{
    let base = sym.day_open as int;
    let gain = (sym.price - sym.day_open) * 100_000_000_000;
    let size = if gain >= 0 {
        gain
    } else {
        -gain
    };
    let k = size / base;
    vstd::arithmetic::div_mod::lemma_fundamental_div_mod(size, base);
    vstd::arithmetic::div_mod::lemma_mod_bound(size, base);
    vstd::arithmetic::div_mod::lemma_div_pos_is_pos(size, base);
    assert(size < 9_000_000_000_000_000_000 * base);
    assert(k < 9_000_000_000_000_000_000) by (nonlinear_arith)
        requires
            base * k <= size,
            size < 9_000_000_000_000_000_000 * base,
            base > 0,
    ;
    assert(base * k == k * base && (k + 1) * base == k * base + base && (-k) * base == -(k * base)
        && (-k - 1) * base == -(k * base) - base) by (nonlinear_arith);
}

/// A walk ends on a whole step, one at least. One step more leads one step further, and the pull draws
/// towards the price of the day's beginning, by no more than a step.
pub proof fn walk_is_drawn_back(sym: SymView, steps: int)
    requires
        sym.day_open > 0,
    ensures
        ({
            let t = step_of(sym);
            &&& walked(sym, steps) >= t
            &&& walked(sym, steps) % t == 0
            &&& walked(sym, steps) > t ==> walked(sym, steps + 1) == walked(sym, steps) + t
            &&& sym.price > sym.day_open ==> -sym.day_open <= pull(sym) < 0
            &&& sym.price < sym.day_open ==> 0 < pull(sym) <= sym.day_open
            &&& sym.price == sym.day_open ==> pull(sym) == 0
            &&& sym.price * 100 >= sym.day_open * 102 ==> pull(sym) == -sym.day_open
            &&& sym.price * 100 <= sym.day_open * 98 ==> pull(sym) == sym.day_open
        }),
{
    let t = step_of(sym);
    let open = sym.day_open as int;
    let n = sym.price * sym.day_open + (steps * sym.day_open + pull(sym)) * t;
    let next = sym.price * sym.day_open + ((steps + 1) * sym.day_open + pull(sym)) * t;
    let d = t * open;
    let p = pull(sym);
    assert(d > 0) by (nonlinear_arith)
        requires
            d == t * open,
            t > 0,
            open > 0,
    ;
    assert(((steps + 1) * open + p) * t == (steps * open + p) * t + t * open) by (nonlinear_arith);
    assert(next == n + d);
    let a = 2 * n + d;
    let k = a / (2 * d);
    vstd::arithmetic::div_mod::lemma_div_plus_one(a, 2 * d);
    assert((2 * next + d) / (2 * d) == k + 1);
    assert((k + 1) * t == k * t + t) by (nonlinear_arith);
    vstd::arithmetic::div_mod::lemma_mod_multiples_basic(k, t);
    vstd::arithmetic::div_mod::lemma_mod_multiples_basic(1, t);
    assert(1 * t == t);
}

/// A walk ends on the step nearest to where its steps and the pull lead.
pub proof fn walk_rounds_to_the_nearest_step(sym: SymView, steps: int)
    requires
        sym.day_open > 0,
        walked(sym, steps) > step_of(sym),
    ensures
        ({
            let t = step_of(sym);
            let exact = sym.price * sym.day_open + (steps * sym.day_open + pull(sym)) * t;
            -t * sym.day_open < 2 * (walked(sym, steps) * sym.day_open - exact) <= t * sym.day_open
        }),
{
    let t = step_of(sym);
    let open = sym.day_open as int;
    let n = sym.price * sym.day_open + (steps * sym.day_open + pull(sym)) * t;
    let d = t * open;
    assert(d > 0) by (nonlinear_arith)
        requires
            d == t * open,
            t > 0,
            open > 0,
    ;
    let a = 2 * n + d;
    let k = a / (2 * d);
    vstd::arithmetic::div_mod::lemma_fundamental_div_mod(a, 2 * d);
    vstd::arithmetic::div_mod::lemma_mod_bound(a, 2 * d);
    assert(2 * d * k == 2 * (k * t * open)) by (nonlinear_arith)
        requires
            d == t * open,
    ;
    assert(-t * open == -d) by (nonlinear_arith)
        requires
            d == t * open,
    ;
}

/// A position shows what its shares would gain or lose at the market's price of its code, and nothing
/// where none is left.
pub proof fn position_shows_its_gain(syms: Seq<SymView>, i: int, row: HeldView)
    requires
        unique::<SymState>(syms),
        0 <= i < syms.len(),
        syms[i].code == row.code,
        i128::MIN <= (syms[i].price * 10_000 - row.avg) * row.qty <= i128::MAX,
    ensures
        row.qty == 0 ==> shown(syms)(row) is None,
        row.qty > 0 ==> (shown(syms)(row) matches Some(told) && told.code == row.code && told.qty
            == row.qty && told.avg_price == row.avg && told.eval_pnl == (syms[i].price * 10_000
            - row.avg) * row.qty),
{
    lemma_place::<SymState>(syms, row.code, i);
}

/// An order that is settled at once is filled with all its shares at the price it was settled at.
pub proof fn settled_order_is_filled(code: Seq<char>, side: Side, qty: u64, price: u64, at: i64)
    ensures
        ({
            let fill = fill_now(code, side, qty, price, at);
            &&& fill.code == code && fill.side == side && fill.qty == qty && fill.filled_at == at
            &&& price * 10_000 <= u64::MAX ==> fill.price == price * 10_000
            &&& side == Side::Buy ==> fill.order_no == "DEMO-BUY"@
            &&& side == Side::Sell ==> fill.order_no == "DEMO-SELL"@
        }),
{
}

/// The day of a session is the day itself or the last one before it that is no weekend, and each
/// session further back is on an earlier day.
pub proof fn sessions_are_on_weekdays(last: int, back: nat)
    requires
        last % 86_400 == 0,
    ensures
        !weekend(session_day(last, back)),
        session_day(last, back) % 86_400 == 0,
        session_day(last, 0) <= last < session_day(last, 0) + 3 * 86_400,
        !weekend(last) ==> session_day(last, 0) == last,
        session_day(last, back + 1) < session_day(last, back) <= session_day(last, back + 1) + 3
            * 86_400,
    decreases back,
{
    if back > 0 {
        sessions_are_on_weekdays(last, (back - 1) as nat);
    }
    let day = if back == 0 {
        last
    } else {
        session_day(last, (back - 1) as nat) - 86_400
    };
    lemma_trading_day(day);
    lemma_trading_day(session_day(last, back) - 86_400);
    lemma_trading_day(last);
}

proof fn lemma_trading_day(day: int)
    requires
        day % 86_400 == 0,
    ensures
        !weekend(trading_day(day)),
        trading_day(day) % 86_400 == 0,
        day - 2 * 86_400 <= trading_day(day) <= day,
        !weekend(day) ==> trading_day(day) == day,
{
    let d = day / 86_400;
    assert((day - 86_400) / 86_400 == d - 1);
    assert((day - 2 * 86_400) / 86_400 == d - 2);
}

/// The minutes of a session follow one another from nine in the morning on, none after the moment, and
/// 390 of them at most.
pub proof fn session_minutes_follow_one_another(day: int, now: int, i: int)
    requires
        0 <= day <= MAX_TIMESTAMP,
        now <= MAX_TIMESTAMP,
        0 <= i < minutes_of_day(day, now).len(),
    ensures
        minutes_of_day(day, now)[i] == day + 9 * 3_600 + 60 * i,
        minutes_of_day(day, now)[i] <= now,
        minutes_of_day(day, now).len() <= 390,
        minutes_of_day(day, now).len() < 390 ==> now < day + 9 * 3_600 + 60 * minutes_of_day(
            day,
            now,
        ).len(),
{
}

/// The codes of the market are those of the lists, none twice, each as it was listed last, at the
/// price that it begins with.
pub proof fn listed_codes_are_there_once(symbols: Seq<SymbolView>)
    ensures
        unique::<SymState>(listed(symbols)),
        forall|i: int|
            0 <= i < listed(symbols).len() ==> (#[trigger] listed(symbols)[i]).price == listed(
                symbols,
            )[i].day_open,
        symbols.len() > 0 ==> exists|i: int|
            0 <= i < listed(symbols).len() && (#[trigger] listed(symbols)[i]).code
                == symbols.last().code && listed(symbols)[i].etf == symbols.last().etf,
        listed(symbols).len() <= symbols.len(),
    decreases symbols.len(),
{
    if symbols.len() > 0 {
        let before = listed(symbols.drop_last());
        let last = symbols.last();
        let i = place::<SymState>(before, last.code);
        let all = listed(symbols);
        listed_codes_are_there_once(symbols.drop_last());
        lemma_first_where_bounds(before, keyed::<SymState>(last.code));
        if i < before.len() {
            assert(keyed::<SymState>(last.code)(before[i]));
            lemma_unique_update::<SymState>(before, i, opened(last));
            assert(all[i].code == last.code && all[i].etf == last.etf);
        } else {
            lemma_unique_push::<SymState>(before, opened(last));
            assert(all[before.len() as int].code == last.code);
        }
    }
}

proof fn lemma_minutes_from(last: int, days: nat, now: int, i: int)
    requires
        last % 86_400 == 0,
        0 <= last <= MAX_TIMESTAMP,
        now <= MAX_TIMESTAMP,
        0 < days,
        session_day(last, (days - 1) as nat) >= 0,
        0 <= i < minutes_of_days(last, days, now).len(),
    ensures
        session_day(last, (days - 1) as nat) + 32_400 <= minutes_of_days(last, days, now)[i] <= now,
    decreases days,
{
    let day = session_day(last, (days - 1) as nat);
    let here = minutes_of_day(day, now);
    lemma_session_days_fall(last, 0, (days - 1) as nat);
    if i < here.len() {
        session_minutes_follow_one_another(day, now, i);
    } else {
        assert(minutes_of_days(last, 0, now).len() == 0);
        assert(days > 1);
        sessions_are_on_weekdays(last, (days - 2) as nat);
        lemma_minutes_from(last, (days - 1) as nat, now, i - here.len());
    }
}

/// The minutes of several sessions rise from the first to the last, and none is after the moment.
pub proof fn minutes_of_sessions_rise(last: int, days: nat, now: int, i: int, j: int)
    requires
        last % 86_400 == 0,
        0 <= last <= MAX_TIMESTAMP,
        now <= MAX_TIMESTAMP,
        0 < days,
        session_day(last, (days - 1) as nat) >= 0,
        0 <= i < j < minutes_of_days(last, days, now).len(),
    ensures
        minutes_of_days(last, days, now)[i] < minutes_of_days(last, days, now)[j] <= now,
    decreases days,
{
    let day = session_day(last, (days - 1) as nat);
    let here = minutes_of_day(day, now);
    lemma_session_days_fall(last, 0, (days - 1) as nat);
    if j < here.len() {
        session_minutes_follow_one_another(day, now, i);
        session_minutes_follow_one_another(day, now, j);
    } else {
        assert(minutes_of_days(last, 0, now).len() == 0);
        assert(days > 1);
        sessions_are_on_weekdays(last, (days - 2) as nat);
        lemma_minutes_from(last, (days - 1) as nat, now, j - here.len());
        if i < here.len() {
            session_minutes_follow_one_another(day, now, i);
        } else {
            minutes_of_sessions_rise(
                last,
                (days - 1) as nat,
                now,
                i - here.len(),
                j - here.len(),
            );
        }
    }
}

} // verus!
