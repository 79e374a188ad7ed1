//! Simulated execution that is wholly apart from the real account.
//!
//! The session takes no broker and no connection. It consumes the ETF trades and the best bid and
//! ask that the caller injects, so that none of its transitions can place a real order.

use vstd::prelude::*;

use crate::automation::oco::{is_valid_target_return, target_return_ok};
use crate::automation::runtime::{rate_of, return_rate};
use crate::util::{ceil_to, lemma_ceil_to, second_of_day, AUTO_PROFIT_GUARD_PCT, DAY_SECONDS};

verus! {

/// Part of the simulated cash that an entry may use, of `BPS_DENOMINATOR`.
pub const CASH_USE_BPS: u64 = 9_500;

pub const BPS_DENOMINATOR: u64 = 10_000;

/// Loss at which a position is given up, in billionths of a percent.
pub const STOP_LOSS_PCT: i64 = -300_000_000;

/// Longest time that a position is held from its first fill.
pub const MAX_HOLD_SECONDS: i64 = 600;

/// Age up to which a quote is used.
pub const BOOK_FRESH_SECONDS: i64 = 10;

/// 15:15:00 as a second of the day.
pub const MARKET_CLOSE_SECOND: i64 = 54_900;

/// Step of ETF prices, in won.
pub const ETF_TICK_SIZE: u64 = 5;

/// Ten billionths of a percent: returns this close above a threshold still count as at it.
pub const RETURN_EPSILON: i64 = 10;

#[derive(Debug, Clone, Copy, PartialEq, Eq, Structural)]
pub enum ShadowProduct {
    Leverage,
    Inverse,
}

/// Best bid and ask of one ETF. `sequence` grows per product.
#[derive(Debug, Clone, Copy, PartialEq, Eq, Structural)]
pub struct ShadowBook {
    pub product: ShadowProduct,
    pub sequence: u64,
    pub ask_price: u64,
    pub ask_qty: u64,
    pub bid_price: u64,
    pub bid_qty: u64,
    /// Wall-clock seconds.
    pub observed_at: i64,
}

impl ShadowBook {
    pub open spec fn fresh_at(self, now: i64) -> bool {
        0 <= now - self.observed_at <= BOOK_FRESH_SECONDS
    }

    /// Whether the quote is no more than ten seconds old, and not from the future.
    pub fn is_fresh_at(&self, now: i64) -> (fresh: bool)
        ensures
            fresh == self.fresh_at(now),
    {
        now >= self.observed_at && now as i128 - self.observed_at as i128
            <= BOOK_FRESH_SECONDS as i128
    }
}

/// One ETF trade. A target order is filled by no more than the volume of such a trade.
#[derive(Debug, Clone, Copy, PartialEq, Eq, Structural)]
pub struct ShadowTradeTick {
    pub product: ShadowProduct,
    pub sequence: u64,
    pub price: u64,
    pub volume: u64,
    /// Wall-clock seconds.
    pub at: i64,
}

#[derive(Debug, Clone, Copy, PartialEq, Eq, Structural)]
pub enum ShadowSide {
    Buy,
    Sell,
}

#[derive(Debug, Clone, Copy, PartialEq, Eq, Structural)]
pub enum ExitReason {
    TargetReached,
    ModeExit,
    MaxHolding,
    ProfitGuard,
    StopLoss,
    MarketClose,
}

impl ExitReason {
    /// A reason gives way only to one of a higher rank.
    pub open spec fn rank(self) -> u8 {
        match self {
            ExitReason::TargetReached => 0,
            ExitReason::ModeExit => 1,
            ExitReason::MaxHolding => 2,
            ExitReason::ProfitGuard => 3,
            ExitReason::StopLoss => 4,
            ExitReason::MarketClose => 5,
        }
    }

    pub fn priority(self) -> (rank: u8)
        ensures
            rank == self.rank(),
    {
        match self {
            ExitReason::TargetReached => 0,
            ExitReason::ModeExit => 1,
            ExitReason::MaxHolding => 2,
            ExitReason::ProfitGuard => 3,
            ExitReason::StopLoss => 4,
            ExitReason::MarketClose => 5,
        }
    }

    /// Whether the exit is at the market, not at the target price.
    pub fn is_forced(self) -> (forced: bool)
        ensures
            forced == (self != ExitReason::TargetReached),
    {
        self != ExitReason::TargetReached
    }
}

#[derive(Debug, Clone, Copy, PartialEq, Eq, Structural)]
pub enum ShadowOrderKind {
    EntryIoc,
    Target,
    ForcedExit(ExitReason),
}

#[derive(Debug, Clone, Copy, PartialEq, Eq, Structural)]
pub enum ShadowOrderStatus {
    Pending,
    PartiallyFilled,
    Filled,
    Cancelled,
    PartiallyFilledCancelled,
}

#[derive(Debug, PartialEq, Eq)]
pub struct ShadowOrder {
    pub id: u64,
    pub product: ShadowProduct,
    pub code: String,
    pub side: ShadowSide,
    pub kind: ShadowOrderKind,
    pub requested_qty: u64,
    pub filled_qty: u64,
    /// What the fills came to in all: the average price times the filled quantity.
    pub filled_value: u128,
    pub limit_price: Option<u64>,
    pub status: ShadowOrderStatus,
    pub created_at: i64,
    pub updated_at: i64,
}

impl ShadowOrder {
    /// A new order of which nothing has been filled.
    pub open spec fn fresh(
        id: u64,
        product: ShadowProduct,
        code: String,
        side: ShadowSide,
        kind: ShadowOrderKind,
        requested_qty: u64,
        limit_price: Option<u64>,
        at: i64,
    ) -> ShadowOrder {
        ShadowOrder {
            id,
            product,
            code,
            side,
            kind,
            requested_qty,
            filled_qty: 0,
            filled_value: 0,
            limit_price,
            status: ShadowOrderStatus::Pending,
            created_at: at,
            updated_at: at,
        }
    }

    pub open spec fn remaining(self) -> int {
        self.requested_qty - self.filled_qty
    }

    /// The books of the order are in order.
    pub open spec fn sound(self) -> bool {
        self.filled_qty <= self.requested_qty && self.filled_value <= self.filled_qty * u64::MAX
    }

    /// The order after `qty` more at `price`.
    pub open spec fn filled(self, qty: u64, price: u64, at: i64) -> ShadowOrder {
        if qty == 0 {
            self
        } else {
            ShadowOrder {
                filled_qty: (self.filled_qty + qty) as u64,
                filled_value: (self.filled_value + price * qty) as u128,
                status: if self.filled_qty + qty >= self.requested_qty {
                    ShadowOrderStatus::Filled
                } else {
                    ShadowOrderStatus::PartiallyFilled
                },
                updated_at: at,
                ..self
            }
        }
    }

    /// The order after what is left of it has been withdrawn.
    pub open spec fn cancelled(self, at: i64) -> ShadowOrder {
        ShadowOrder {
            status: if self.filled_qty == 0 {
                ShadowOrderStatus::Cancelled
            } else if self.filled_qty < self.requested_qty {
                ShadowOrderStatus::PartiallyFilledCancelled
            } else {
                ShadowOrderStatus::Filled
            },
            updated_at: at,
            ..self
        }
    }

    fn new(
        id: u64,
        product: ShadowProduct,
        code: String,
        side: ShadowSide,
        kind: ShadowOrderKind,
        requested_qty: u64,
        limit_price: Option<u64>,
        at: i64,
    ) -> (order: Self)
        ensures
            order == ShadowOrder::fresh(
                id,
                product,
                code,
                side,
                kind,
                requested_qty,
                limit_price,
                at,
            ),
    {
        ShadowOrder {
            id,
            product,
            code,
            side,
            kind,
            requested_qty,
            filled_qty: 0,
            filled_value: 0,
            limit_price,
            status: ShadowOrderStatus::Pending,
            created_at: at,
            updated_at: at,
        }
    }

    fn record_fill(&mut self, qty: u64, price: u64, at: i64)
        requires
            old(self).sound(),
            qty <= old(self).remaining(),
        ensures
            *final(self) == old(self).filled(qty, price, at),
            final(self).sound(),
            final(self).remaining() == old(self).remaining() - qty,
    {
        if qty == 0 {
            return;
        }
        proof {
            lemma_fill_fits(self.filled_value as int, self.filled_qty as int, price as int, qty as int);
        }
        self.filled_qty = self.filled_qty + qty;
        self.filled_value = self.filled_value + price as u128 * qty as u128;
        self.status = if self.filled_qty >= self.requested_qty {
            ShadowOrderStatus::Filled
        } else {
            ShadowOrderStatus::PartiallyFilled
        };
        self.updated_at = at;
    }

    fn cancel_remainder(&mut self, at: i64)
        ensures
            *final(self) == old(self).cancelled(at),
    {
        self.status = if self.filled_qty == 0 {
            ShadowOrderStatus::Cancelled
        } else if self.filled_qty < self.requested_qty {
            ShadowOrderStatus::PartiallyFilledCancelled
        } else {
            ShadowOrderStatus::Filled
        };
        self.updated_at = at;
    }
}

proof fn lemma_fill_fits(value: int, filled: int, price: int, qty: int)
    by (nonlinear_arith)
    requires
        0 <= value <= filled * 0xffff_ffff_ffff_ffff,
        0 <= filled,
        0 <= price <= 0xffff_ffff_ffff_ffff,
        0 <= qty,
        filled + qty <= 0xffff_ffff_ffff_ffff,
    ensures
        0 <= price * qty,
        value + price * qty <= (filled + qty) * 0xffff_ffff_ffff_ffff,
        (filled + qty) * 0xffff_ffff_ffff_ffff <= 0xffff_ffff_ffff_ffff * 0xffff_ffff_ffff_ffff,
        price * qty <= 0xffff_ffff_ffff_ffff * 0xffff_ffff_ffff_ffff,
{
}

#[derive(Debug, PartialEq, Eq)]
pub struct ShadowPosition {
    pub product: ShadowProduct,
    pub code: String,
    pub entry_qty: u64,
    pub qty: u64,
    /// Price of the fills of the entry, in won.
    pub entry_vwap: u64,
    /// In billionths of a percent.
    pub target_return_pct: i64,
    pub target_price: u64,
    pub first_fill_time: i64,
    pub last_price: u64,
    pub profit_guard_armed: bool,
}

/// The return of `price` on `entry` is at most `pct` billionths of a percent, of which the whole has
/// a hundred billions. Without an entry price there is no such return.
pub open spec fn returns_at_most(entry: int, price: int, pct: int) -> bool {
    entry > 0 && (price - entry) * 100_000_000_000 <= pct * entry
}

/// The return of `price` on `entry` is above `pct` billionths of a percent; without an entry price
/// any price is.
pub open spec fn returns_above(entry: int, price: int, pct: int) -> bool {
    (entry > 0 && (price - entry) * 100_000_000_000 > pct * entry) || (entry == 0 && price > 0)
}

/// Whether the return of `price` on `entry` is at most `pct` billionths of a percent.
pub fn is_return_at_most(entry: u64, price: u64, pct: i64) -> (yes: bool)
    ensures
        yes == returns_at_most(entry as int, price as int, pct as int),
{
    proof {
        assert(-0x8000_0000_0000_0000 * 0xffff_ffff_ffff_ffff <= pct * entry <= 0x7fff_ffff_ffff_ffff
            * 0xffff_ffff_ffff_ffff) by (nonlinear_arith)
            requires
                0 <= entry <= 0xffff_ffff_ffff_ffff,
                -0x8000_0000_0000_0000 <= pct <= 0x7fff_ffff_ffff_ffff,
        ;
    }
    entry > 0 && (price as i128 - entry as i128) * 100_000_000_000 <= pct as i128
        * entry as i128
}

/// Whether the return of `price` on `entry` is above `pct` billionths of a percent.
pub fn is_return_above(entry: u64, price: u64, pct: i64) -> (yes: bool)
    ensures
        yes == returns_above(entry as int, price as int, pct as int),
{
    if entry == 0 {
        return price > 0;
    }
    !is_return_at_most(entry, price, pct)
}

/// The return of a price on an entry, in billionths of a percent, cut towards zero. Without an entry
/// price there is none.
pub fn simple_return_pct(entry_vwap: u64, current_price: u64) -> (rate: Option<i128>)
    ensures
        rate == (if entry_vwap == 0 {
            None
        } else {
            Some(return_rate(entry_vwap as int, current_price as int) as i128)
        }),
{
    if entry_vwap == 0 {
        None
    } else {
        Some(rate_of(entry_vwap, current_price))
    }
}

impl ShadowPosition {
    /// The return of the price last seen on the entry.
    pub fn simple_return_pct(&self) -> (rate: Option<i128>)
        ensures
            rate == (if self.entry_vwap == 0 {
                None
            } else {
                Some(return_rate(self.entry_vwap as int, self.last_price as int) as i128)
            }),
    {
        simple_return_pct(self.entry_vwap, self.last_price)
    }

    /// Whether the price last seen is at most `pct` billionths of a percent above the entry.
    pub open spec fn within(self, pct: int) -> bool {
        returns_at_most(self.entry_vwap as int, self.last_price as int, pct)
    }
}

#[derive(Debug, Clone, Copy, PartialEq, Eq, Structural)]
pub enum ShadowError {
    PositionAlreadyOpen,
    ProductMismatch,
    InvalidBook,
    StaleBook,
    InvalidTargetReturn,
    NoAffordableQuantity,
    ArithmeticOverflow,
}

#[derive(Debug, Clone, Copy, PartialEq, Eq, Structural)]
pub struct EntryOutcome {
    pub order_id: u64,
    pub requested_qty: u64,
    pub filled_qty: u64,
    pub fill_price: Option<u64>,
    pub target_order_id: Option<u64>,
    pub target_price: Option<u64>,
}

#[derive(Debug, Clone, Copy, PartialEq, Eq, Structural)]
pub struct ShadowFill {
    pub order_id: u64,
    pub product: ShadowProduct,
    pub side: ShadowSide,
    pub qty: u64,
    pub price: u64,
    pub at: i64,
}

#[derive(Debug, Clone, Copy, PartialEq, Eq, Structural)]
pub struct ShadowUpdate {
    /// A new quote or trade was consumed, not a repetition.
    pub accepted: bool,
    pub fill: Option<ShadowFill>,
    pub exit_reason: Option<ExitReason>,
    pub position_closed: bool,
}

impl ShadowUpdate {
    pub open spec fn nothing() -> ShadowUpdate {
        ShadowUpdate { accepted: false, fill: None, exit_reason: None, position_closed: false }
    }
}

impl Default for ShadowUpdate {
    fn default() -> (update: Self)
        ensures
            update == ShadowUpdate::nothing(),
    {
        ShadowUpdate { accepted: false, fill: None, exit_reason: None, position_closed: false }
    }
}

/// The close of the day on which the position was opened has come.
pub open spec fn closed_by(first_fill_time: i64, now: i64) -> bool {
    now >= first_fill_time - second_of_day(first_fill_time as int) + MARKET_CLOSE_SECOND
}

/// Whether 15:15 of the day of the first fill has come.
pub fn has_reached_market_close(first_fill_time: i64, now: i64) -> (yes: bool)
    ensures
        yes == closed_by(first_fill_time, now),
{
    match first_fill_time.checked_rem_euclid(DAY_SECONDS) {
        Some(second) => now as i128 >= first_fill_time as i128 - second as i128
            + MARKET_CLOSE_SECOND as i128,
        None => false,
    }
}

/// Price at which the target return on `entry_vwap` is reached, on the ETF's tick.
pub open spec fn target_price_spec(entry_vwap: u64, target_return_pct: i64) -> int {
    ceil_to(
        (entry_vwap * (100_000_000_000 + target_return_pct) + 100_000_000_000 - 1) / (100_000_000_000),
        ETF_TICK_SIZE as int,
    )
}

/// The target price is the lowest tick at which the return is reached.
pub proof fn target_is_the_first_tick(entry_vwap: u64, target_return_pct: i64)
    requires
        target_return_ok(Some(target_return_pct)),
    ensures
        ({
            let t = target_price_spec(entry_vwap, target_return_pct);
            &&& t % 5 == 0
            &&& t * 100_000_000_000 >= entry_vwap * (100_000_000_000 + target_return_pct)
            &&& (t - 5) * 100_000_000_000 < entry_vwap * (100_000_000_000 + target_return_pct)
        }),
{
    let n = entry_vwap * (100_000_000_000 + target_return_pct);
    let d = 100_000_000_000int;
    assert(n >= 0) by (nonlinear_arith)
        requires
            n == entry_vwap * (100_000_000_000 + target_return_pct),
            target_return_pct >= 0,
    ;
    let w = (n + d - 1) / d;
    lemma_ceil_to(w, 5);
    assert(w * d >= n && (w - 1) * d < n);
}

/// The target price for an entry, or why there is none.
pub fn target_price_for(entry_vwap: u64, target_return_pct: i64) -> (result: Result<
    u64,
    ShadowError,
>)
    ensures
        match result {
            Ok(price) => entry_vwap > 0 && target_return_ok(Some(target_return_pct)) && price
                == target_price_spec(entry_vwap, target_return_pct),
            Err(error) => if entry_vwap == 0 {
                error == ShadowError::InvalidBook
            } else if !target_return_ok(Some(target_return_pct)) {
                error == ShadowError::InvalidTargetReturn
            } else {
                error == ShadowError::ArithmeticOverflow && target_price_spec(
                    entry_vwap,
                    target_return_pct,
                ) > u64::MAX
            },
        },
{
    if entry_vwap == 0 {
        return Err(ShadowError::InvalidBook);
    }
    if !is_valid_target_return(Some(target_return_pct)) {
        return Err(ShadowError::InvalidTargetReturn);
    }
    let whole: u128 = 100_000_000_000;
    let factor: u128 = whole + target_return_pct as u128;
    proof {
        assert(0 <= entry_vwap * factor <= 0xffff_ffff_ffff_ffff * 102_000_000_000)
            by (nonlinear_arith)
            requires
                0 <= entry_vwap <= 0xffff_ffff_ffff_ffff,
                0 <= factor <= 102_000_000_000,
        ;
    }
    let raw: u128 = (entry_vwap as u128 * factor + whole - 1) / whole;
    let tick: u128 = ETF_TICK_SIZE as u128;
    let rounded: u128 = (raw + tick - 1) / tick * tick;
    if rounded > u64::MAX as u128 {
        return Err(ShadowError::ArithmeticOverflow);
    }
    Ok(rounded as u64)
}

/// The value of `qty` at `price`, where it fits.
pub fn checked_value(price: u64, qty: u64) -> (value: Result<u64, ShadowError>)
    ensures
        match value {
            Ok(v) => v == price * qty,
            Err(e) => e == ShadowError::ArithmeticOverflow && price * qty > u64::MAX,
        },
{
    match price.checked_mul(qty) {
        Some(value) => Ok(value),
        None => Err(ShadowError::ArithmeticOverflow),
    }
}

/// What a session is made of.
#[verifier::ext_equal]
pub struct ShadowView {
    pub starting_cash: u64,
    pub cash: u64,
    pub position: Option<ShadowPosition>,
    pub orders: Seq<ShadowOrder>,
    pub next_order_id: u64,
    pub target_order_id: Option<u64>,
    pub forced_order_id: Option<u64>,
    pub active_exit_reason: Option<ExitReason>,
    pub last_book: Option<ShadowBook>,
    pub last_exit_book_sequence: Option<u64>,
    pub last_trade_sequence: Option<u64>,
}

/// What calls for an exit at the market, the most urgent first.
pub open spec fn exit_condition(p: ShadowPosition, now: i64, mode_exit: bool) -> Option<
    ExitReason,
> {
    if closed_by(p.first_fill_time, now) {
        Some(ExitReason::MarketClose)
    } else if p.within(STOP_LOSS_PCT + RETURN_EPSILON) {
        Some(ExitReason::StopLoss)
    } else if p.profit_guard_armed && p.within(AUTO_PROFIT_GUARD_PCT + RETURN_EPSILON) {
        Some(ExitReason::ProfitGuard)
    } else if now - p.first_fill_time >= MAX_HOLD_SECONDS {
        Some(ExitReason::MaxHolding)
    } else if mode_exit {
        Some(ExitReason::ModeExit)
    } else {
        None
    }
}

/// The reason under way, unless the new one ranks higher.
pub open spec fn stronger(active: Option<ExitReason>, next: Option<ExitReason>) -> Option<
    ExitReason,
> {
    match (active, next) {
        (Some(a), Some(n)) => if a.rank() >= n.rank() {
            Some(a)
        } else {
            Some(n)
        },
        (Some(a), None) => Some(a),
        (None, n) => n,
    }
}

impl ShadowView {
    /// The order is one of this session's, a sale, and `qty` of it is open.
    pub open spec fn sells(self, id: u64, qty: u64) -> bool {
        &&& 1 <= id <= self.orders.len()
        &&& self.orders[id - 1].side == ShadowSide::Sell
        &&& self.orders[id - 1].remaining() == qty
    }

    /// Orders are numbered from one in the order in which they were made. An open position is for
    /// sale by exactly one order: the target order, or the forced one once an exit is under way. An
    /// exit under way has a reason other than the target. There is a number left for the forced order.
    pub open spec fn wf(self) -> bool {
        &&& self.next_order_id == self.orders.len() + 1
        &&& forall|i: int|
            0 <= i < self.orders.len() ==> (#[trigger] self.orders[i]).id == i + 1
                && self.orders[i].sound()
        &&& match self.position {
            None => self.target_order_id is None && self.forced_order_id is None
                && self.active_exit_reason is None,
            Some(p) => match self.active_exit_reason {
                Some(reason) => reason != ExitReason::TargetReached && self.target_order_id is None
                    && self.forced_order_id is Some && self.sells(self.forced_order_id->0, p.qty),
                None => self.forced_order_id is None && self.target_order_id is Some
                    && self.sells(self.target_order_id->0, p.qty) && self.next_order_id
                    < u64::MAX,
            },
        }
    }

    pub open spec fn started(cash: u64) -> ShadowView {
        ShadowView {
            starting_cash: cash,
            cash,
            position: None,
            orders: Seq::empty(),
            next_order_id: 1,
            target_order_id: None,
            forced_order_id: None,
            active_exit_reason: None,
            last_book: None,
            last_exit_book_sequence: None,
            last_trade_sequence: None,
        }
    }

    /// Number of shares that 95 % of the cash buys at `price`.
    pub open spec fn affordable(self, price: u64) -> int {
        self.cash * CASH_USE_BPS / BPS_DENOMINATOR as int / price as int
    }

    /// Why no entry is made, if none is.
    pub open spec fn entry_error(
        self,
        product: ShadowProduct,
        target_return_pct: i64,
        now: i64,
        book: ShadowBook,
    ) -> Option<ShadowError> {
        if self.position is Some {
            Some(ShadowError::PositionAlreadyOpen)
        } else if book.product != product {
            Some(ShadowError::ProductMismatch)
        } else if book.ask_price == 0 {
            Some(ShadowError::InvalidBook)
        } else if !book.fresh_at(now) {
            Some(ShadowError::StaleBook)
        } else if !target_return_ok(Some(target_return_pct)) {
            Some(ShadowError::InvalidTargetReturn)
        } else if self.affordable(book.ask_price) == 0 {
            Some(ShadowError::NoAffordableQuantity)
        } else if self.next_order_id > u64::MAX - 3 {
            Some(ShadowError::ArithmeticOverflow)
        } else {
            None
        }
    }

    /// Shares that an entry gets: what it asks for, up to what the best ask offers.
    pub open spec fn entry_fill(self, book: ShadowBook) -> u64 {
        if self.affordable(book.ask_price) <= book.ask_qty {
            self.affordable(book.ask_price) as u64
        } else {
            book.ask_qty
        }
    }

    /// The session after an entry order that met no error.
    pub open spec fn entered(
        self,
        product: ShadowProduct,
        code: String,
        target_return_pct: i64,
        now: i64,
        book: ShadowBook,
    ) -> ShadowView {
        let price = book.ask_price;
        let qty = self.entry_fill(book);
        let entry = ShadowOrder::fresh(
            self.next_order_id,
            product,
            code,
            ShadowSide::Buy,
            ShadowOrderKind::EntryIoc,
            self.affordable(price) as u64,
            Some(price),
            now,
        ).filled(qty, price, now).cancelled(now);
        let target_price = target_price_spec(price, target_return_pct) as u64;
        let target_id = (self.next_order_id + 1) as u64;
        if qty == 0 {
            ShadowView {
                orders: self.orders.push(entry),
                next_order_id: target_id,
                last_book: Some(book),
                ..self
            }
        } else {
            ShadowView {
                cash: (self.cash - price * qty) as u64,
                position: Some(
                    ShadowPosition {
                        product,
                        code,
                        entry_qty: qty,
                        qty,
                        entry_vwap: price,
                        target_return_pct,
                        target_price,
                        first_fill_time: now,
                        last_price: price,
                        profit_guard_armed: false,
                    },
                ),
                orders: self.orders.push(entry).push(
                    ShadowOrder::fresh(
                        target_id,
                        product,
                        code,
                        ShadowSide::Sell,
                        ShadowOrderKind::Target,
                        qty,
                        Some(target_price),
                        now,
                    ),
                ),
                next_order_id: (self.next_order_id + 2) as u64,
                target_order_id: Some(target_id),
                forced_order_id: None,
                active_exit_reason: None,
                last_book: Some(book),
                last_exit_book_sequence: None,
                last_trade_sequence: None,
                ..self
            }
        }
    }

    /// What an entry order that met no error reports.
    pub open spec fn entry_outcome(self, target_return_pct: i64, book: ShadowBook) -> EntryOutcome {
        let qty = self.entry_fill(book);
        EntryOutcome {
            order_id: self.next_order_id,
            requested_qty: self.affordable(book.ask_price) as u64,
            filled_qty: qty,
            fill_price: if qty == 0 {
                None
            } else {
                Some(book.ask_price)
            },
            target_order_id: if qty == 0 {
                None
            } else {
                Some((self.next_order_id + 1) as u64)
            },
            target_price: if qty == 0 {
                None
            } else {
                Some(target_price_spec(book.ask_price, target_return_pct) as u64)
            },
        }
    }

    /// The reason for which the position is to be sold at the market, if any.
    pub open spec fn forced_reason(self, now: i64, mode_exit: bool) -> Option<ExitReason> {
        match self.position {
            Some(p) => stronger(self.active_exit_reason, exit_condition(p, now, mode_exit)),
            None => None,
        }
    }

    /// The session with an exit for `reason` under way: the target order is withdrawn, and one
    /// forced order sells what is left.
    pub open spec fn exiting(self, reason: ExitReason, now: i64) -> ShadowView {
        if self.position is None || (self.active_exit_reason is Some
            && self.active_exit_reason->0.rank() >= reason.rank()) {
            self
        } else {
            let p = self.position->0;
            let orders = match self.target_order_id {
                Some(id) => self.orders.update(id - 1, self.orders[id - 1].cancelled(now)),
                None => self.orders,
            };
            let kind = ShadowOrderKind::ForcedExit(reason);
            match self.forced_order_id {
                Some(id) => ShadowView {
                    active_exit_reason: Some(reason),
                    target_order_id: None,
                    orders: orders.update(
                        id - 1,
                        ShadowOrder { kind, updated_at: now, ..orders[id - 1] },
                    ),
                    ..self
                },
                None => ShadowView {
                    active_exit_reason: Some(reason),
                    target_order_id: None,
                    orders: orders.push(
                        ShadowOrder::fresh(
                            self.next_order_id,
                            p.product,
                            p.code,
                            ShadowSide::Sell,
                            kind,
                            p.qty,
                            None,
                            now,
                        ),
                    ),
                    next_order_id: (self.next_order_id + 1) as u64,
                    forced_order_id: Some(self.next_order_id),
                    ..self
                },
            }
        }
    }

    /// The proceeds and the cash after them can be counted.
    pub open spec fn can_credit(self, qty: u64, price: u64) -> bool {
        self.cash + price * qty <= u64::MAX
    }

    /// The session after order `id` has sold `qty` at `price`, with the position closed where
    /// nothing is left of it.
    pub open spec fn sold(self, id: u64, qty: u64, price: u64, at: i64) -> ShadowView {
        let p = self.position->0;
        let closed = p.qty == qty;
        ShadowView {
            cash: (self.cash + price * qty) as u64,
            orders: self.orders.update(id - 1, self.orders[id - 1].filled(qty, price, at)),
            position: if closed {
                None
            } else {
                Some(ShadowPosition { qty: (p.qty - qty) as u64, last_price: price, ..p })
            },
            target_order_id: if closed {
                None
            } else {
                self.target_order_id
            },
            forced_order_id: if closed {
                None
            } else {
                self.forced_order_id
            },
            active_exit_reason: if closed {
                None
            } else {
                self.active_exit_reason
            },
            ..self
        }
    }

    /// There is a quote to sell into that is fresh and has not been used for a sale yet.
    pub open spec fn bid_usable(self, now: i64) -> bool {
        &&& self.last_book is Some
        &&& self.last_book->0.fresh_at(now)
        &&& self.last_book->0.bid_price != 0
        &&& self.last_book->0.bid_qty != 0
        &&& self.last_exit_book_sequence != Some(self.last_book->0.sequence)
    }

    /// Shares that the best bid takes.
    pub open spec fn bid_fill(self) -> u64 {
        let qty = match self.position {
            Some(p) => p.qty,
            None => 0,
        };
        if qty <= self.last_book->0.bid_qty {
            qty
        } else {
            self.last_book->0.bid_qty
        }
    }

    /// The session after an exit under way has sold into the best bid, as far as that goes.
    pub open spec fn driven(self, now: i64) -> ShadowView {
        let book = self.last_book->0;
        let seen = ShadowView { last_exit_book_sequence: Some(book.sequence), ..self };
        if self.active_exit_reason is None || !self.bid_usable(now) {
            self
        } else if self.bid_fill() == 0 || !self.can_credit(self.bid_fill(), book.bid_price) {
            seen
        } else {
            seen.sold(self.forced_order_id->0, self.bid_fill(), book.bid_price, now)
        }
    }

    /// What that reports.
    pub open spec fn drive_result(self, now: i64) -> Result<ShadowUpdate, ShadowError> {
        let book = self.last_book->0;
        let idle = ShadowUpdate {
            exit_reason: self.active_exit_reason,
            ..ShadowUpdate::nothing()
        };
        if self.active_exit_reason is None || !self.bid_usable(now) || self.bid_fill() == 0 {
            Ok(idle)
        } else if !self.can_credit(self.bid_fill(), book.bid_price) {
            Err(ShadowError::ArithmeticOverflow)
        } else {
            Ok(
                ShadowUpdate {
                    fill: Some(
                        ShadowFill {
                            order_id: self.forced_order_id->0,
                            product: book.product,
                            side: ShadowSide::Sell,
                            qty: self.bid_fill(),
                            price: book.bid_price,
                            at: now,
                        },
                    ),
                    position_closed: self.position->0.qty == self.bid_fill(),
                    ..idle
                },
            )
        }
    }

    /// The session with whatever exit is due under way.
    pub open spec fn evaluated(self, now: i64, mode_exit: bool) -> ShadowView {
        match self.forced_reason(now, mode_exit) {
            Some(reason) => self.exiting(reason, now),
            None => self,
        }
    }

    /// The trade is one of the ETF held, and newer than every trade consumed.
    pub open spec fn admits_trade(self, tick: ShadowTradeTick) -> bool {
        &&& self.position is Some
        &&& self.position->0.product == tick.product
        &&& tick.price != 0
        &&& tick.volume != 0
        &&& self.last_trade_sequence is Some ==> tick.sequence > self.last_trade_sequence->0
    }

    /// The session that has seen the price of an admitted trade.
    pub open spec fn priced(self, tick: ShadowTradeTick) -> ShadowView {
        let p = self.position->0;
        ShadowView {
            last_trade_sequence: Some(tick.sequence),
            position: Some(
                ShadowPosition {
                    last_price: tick.price,
                    profit_guard_armed: p.profit_guard_armed || (p.target_return_pct
                        > AUTO_PROFIT_GUARD_PCT && returns_above(
                        p.entry_vwap as int,
                        tick.price as int,
                        AUTO_PROFIT_GUARD_PCT as int,
                    )),
                    ..p
                },
            ),
            ..self
        }
    }

    /// Shares of the target order that a trade at or above its price takes.
    pub open spec fn target_fill(self, tick: ShadowTradeTick) -> u64 {
        if self.position->0.qty <= tick.volume {
            self.position->0.qty
        } else {
            tick.volume
        }
    }

    /// The session after a trade.
    pub open spec fn after_trade(self, tick: ShadowTradeTick) -> ShadowView {
        let priced = self.priced(tick);
        let target_price = priced.position->0.target_price;
        if !self.admits_trade(tick) {
            self
        } else if priced.forced_reason(tick.at, false) is Some {
            priced.evaluated(tick.at, false).driven(tick.at)
        } else if tick.price < target_price || !priced.can_credit(
            priced.target_fill(tick),
            target_price,
        ) {
            priced
        } else {
            priced.sold(
                self.target_order_id->0,
                priced.target_fill(tick),
                target_price,
                tick.at,
            )
        }
    }

    /// What a trade reports.
    pub open spec fn trade_result(self, tick: ShadowTradeTick) -> Result<
        ShadowUpdate,
        ShadowError,
    > {
        let priced = self.priced(tick);
        let target_price = priced.position->0.target_price;
        if !self.admits_trade(tick) {
            Ok(ShadowUpdate::nothing())
        } else if priced.forced_reason(tick.at, false) is Some {
            accepted(priced.evaluated(tick.at, false).drive_result(tick.at))
        } else if tick.price < target_price {
            accepted(Ok(ShadowUpdate::nothing()))
        } else if !priced.can_credit(priced.target_fill(tick), target_price) {
            Err(ShadowError::ArithmeticOverflow)
        } else {
            Ok(
                ShadowUpdate {
                    accepted: true,
                    fill: Some(
                        ShadowFill {
                            order_id: self.target_order_id->0,
                            product: tick.product,
                            side: ShadowSide::Sell,
                            qty: priced.target_fill(tick),
                            price: target_price,
                            at: tick.at,
                        },
                    ),
                    exit_reason: Some(ExitReason::TargetReached),
                    position_closed: priced.position->0.qty == priced.target_fill(tick),
                },
            )
        }
    }

    /// The quote is one of the ETF held, and newer than the one at hand.
    pub open spec fn admits_book(self, book: ShadowBook) -> bool {
        self.position is None || (self.position->0.product == book.product && (
        self.last_book is Some && self.last_book->0.product == book.product ==> book.sequence
            > self.last_book->0.sequence))
    }

    /// The session after a quote.
    pub open spec fn after_book(self, book: ShadowBook) -> ShadowView {
        if !self.admits_book(book) {
            self
        } else {
            (ShadowView { last_book: Some(book), ..self }).after_poll(book.observed_at, false)
        }
    }

    /// What a quote reports.
    pub open spec fn book_result(self, book: ShadowBook) -> Result<ShadowUpdate, ShadowError> {
        if !self.admits_book(book) {
            Ok(ShadowUpdate::nothing())
        } else {
            accepted(
                (ShadowView { last_book: Some(book), ..self }).poll_result(
                    book.observed_at,
                    false,
                ),
            )
        }
    }

    /// The session after a look at the clock, and at a request to leave the mode.
    pub open spec fn after_poll(self, now: i64, mode_exit: bool) -> ShadowView {
        if self.position is None {
            self
        } else {
            self.evaluated(now, mode_exit).driven(now)
        }
    }

    /// What such a look reports.
    pub open spec fn poll_result(self, now: i64, mode_exit: bool) -> Result<
        ShadowUpdate,
        ShadowError,
    > {
        if self.position is None {
            Ok(ShadowUpdate::nothing())
        } else {
            self.evaluated(now, mode_exit).drive_result(now)
        }
    }
}

/// The same report, with the quote or trade marked as consumed.
pub open spec fn accepted(result: Result<ShadowUpdate, ShadowError>) -> Result<
    ShadowUpdate,
    ShadowError,
> {
    match result {
        Ok(update) => Ok(ShadowUpdate { accepted: true, ..update }),
        Err(error) => Err(error),
    }
}

/// Number of shares that the sales have sold in all.
pub open spec fn sold_qty(orders: Seq<ShadowOrder>) -> nat
    decreases orders.len(),
{
    if orders.len() == 0 {
        0
    } else {
        sold_qty(orders.drop_last()) + if orders.last().side == ShadowSide::Sell {
            orders.last().filled_qty as nat
        } else {
            0
        }
    }
}

/// What the fills of one side came to in all.
pub open spec fn traded_value(orders: Seq<ShadowOrder>, side: ShadowSide) -> nat
    decreases orders.len(),
{
    if orders.len() == 0 {
        0
    } else {
        traded_value(orders.drop_last(), side) + if orders.last().side == side {
            orders.last().filled_value as nat
        } else {
            0
        }
    }
}

/// One simulated session: its cash, position and orders.
#[derive(Debug)]
pub struct ShadowSession {
    starting_cash: u64,
    cash: u64,
    position: Option<ShadowPosition>,
    orders: Vec<ShadowOrder>,
    next_order_id: u64,
    target_order_id: Option<u64>,
    forced_order_id: Option<u64>,
    active_exit_reason: Option<ExitReason>,
    last_book: Option<ShadowBook>,
    last_exit_book_sequence: Option<u64>,
    last_trade_sequence: Option<u64>,
}

impl View for ShadowSession {
    type V = ShadowView;

    closed spec fn view(&self) -> ShadowView {
        ShadowView {
            starting_cash: self.starting_cash,
            cash: self.cash,
            position: self.position,
            orders: self.orders@,
            next_order_id: self.next_order_id,
            target_order_id: self.target_order_id,
            forced_order_id: self.forced_order_id,
            active_exit_reason: self.active_exit_reason,
            last_book: self.last_book,
            last_exit_book_sequence: self.last_exit_book_sequence,
            last_trade_sequence: self.last_trade_sequence,
        }
    }
}

impl Clone for ShadowOrder {
    fn clone(&self) -> (copy: Self)
        ensures
            copy == *self,
    {
        ShadowOrder {
            id: self.id,
            product: self.product,
            code: self.code.clone(),
            side: self.side,
            kind: self.kind,
            requested_qty: self.requested_qty,
            filled_qty: self.filled_qty,
            filled_value: self.filled_value,
            limit_price: self.limit_price,
            status: self.status,
            created_at: self.created_at,
            updated_at: self.updated_at,
        }
    }
}

impl Clone for ShadowPosition {
    fn clone(&self) -> (copy: Self)
        ensures
            copy == *self,
    {
        ShadowPosition {
            product: self.product,
            code: self.code.clone(),
            entry_qty: self.entry_qty,
            qty: self.qty,
            entry_vwap: self.entry_vwap,
            target_return_pct: self.target_return_pct,
            target_price: self.target_price,
            first_fill_time: self.first_fill_time,
            last_price: self.last_price,
            profit_guard_armed: self.profit_guard_armed,
        }
    }
}

/// All that a session is, to be written down and taken up again.
#[derive(Debug)]
pub struct ShadowParts {
    pub starting_cash: u64,
    pub cash: u64,
    pub position: Option<ShadowPosition>,
    pub orders: Vec<ShadowOrder>,
    pub next_order_id: u64,
    pub target_order_id: Option<u64>,
    pub forced_order_id: Option<u64>,
    pub active_exit_reason: Option<ExitReason>,
    pub last_book: Option<ShadowBook>,
    pub last_exit_book_sequence: Option<u64>,
    pub last_trade_sequence: Option<u64>,
}

impl View for ShadowParts {
    type V = ShadowView;

    open spec fn view(&self) -> ShadowView {
        ShadowView {
            starting_cash: self.starting_cash,
            cash: self.cash,
            position: self.position,
            orders: self.orders@,
            next_order_id: self.next_order_id,
            target_order_id: self.target_order_id,
            forced_order_id: self.forced_order_id,
            active_exit_reason: self.active_exit_reason,
            last_book: self.last_book,
            last_exit_book_sequence: self.last_exit_book_sequence,
            last_trade_sequence: self.last_trade_sequence,
        }
    }
}

impl ShadowParts {
    fn orders_are_sound(&self) -> (yes: bool)
        ensures
            yes == (forall|i: int|
                0 <= i < self.orders@.len() ==> (#[trigger] self.orders@[i]).id == i + 1
                    && self.orders@[i].sound()),
    {
        let mut i: usize = 0;
        while i < self.orders.len()
            invariant
                i <= self.orders@.len(),
                forall|k: int|
                    0 <= k < i ==> (#[trigger] self.orders@[k]).id == k + 1
                        && self.orders@[k].sound(),
            decreases self.orders@.len() - i,
        {
            let order = &self.orders[i];
            proof {
                assert(0 <= order.filled_qty * u64::MAX <= u64::MAX * u64::MAX) by (nonlinear_arith)
                    requires
                        0 <= order.filled_qty <= u64::MAX,
                ;
            }
            let most: u128 = order.filled_qty as u128 * u64::MAX as u128;
            if order.id == 0 || order.id - 1 != i as u64 || order.filled_qty > order.requested_qty
                || order.filled_value > most {
                assert(!(self.orders@[i as int].id == i + 1 && self.orders@[i as int].sound()));
                return false;
            }
            i += 1;
        }
        true
    }

    fn offers(&self, id: Option<u64>, qty: u64) -> (yes: bool)
        requires
            forall|i: int| 0 <= i < self.orders@.len() ==> (#[trigger] self.orders@[i]).sound(),
        ensures
            yes == (id is Some && self@.sells(id->0, qty)),
    {
        match id {
            Some(id) => {
                if id == 0 || id > self.orders.len() as u64 {
                    return false;
                }
                let order = &self.orders[(id - 1) as usize];
                assert(self.orders@[id - 1].sound());
                order.side == ShadowSide::Sell && order.requested_qty - order.filled_qty == qty
            },
            None => false,
        }
    }

    fn is_sound(&self) -> (yes: bool)
        ensures
            yes == self@.wf(),
    {
        if self.next_order_id == 0 || self.next_order_id - 1 != self.orders.len() as u64
            || !self.orders_are_sound() {
            return false;
        }
        assert forall|i: int| 0 <= i < self.orders@.len() implies (
        #[trigger] self.orders@[i]).sound() by {
            assert(self.orders@[i].id == i + 1);
        }
        match &self.position {
            None => self.target_order_id.is_none() && self.forced_order_id.is_none()
                && self.active_exit_reason.is_none(),
            Some(p) => match self.active_exit_reason {
                Some(reason) => reason.is_forced() && self.target_order_id.is_none() && self.offers(
                    self.forced_order_id,
                    p.qty,
                ),
                None => self.forced_order_id.is_none() && self.offers(self.target_order_id, p.qty)
                    && self.next_order_id < u64::MAX,
            },
        }
    }
}

impl ShadowSession {
    /// What the session is, to be written down.
    pub fn parts(&self) -> (parts: ShadowParts)
        ensures
            parts@ == self@,
    {
        let mut orders: Vec<ShadowOrder> = Vec::new();
        let mut i: usize = 0;
        while i < self.orders.len()
            invariant
                i <= self.orders@.len(),
                orders@ == self.orders@.take(i as int),
            decreases self.orders@.len() - i,
        {
            orders.push(self.orders[i].clone());
            i += 1;
            assert(self.orders@.take(i as int) =~= self.orders@.take(i - 1).push(
                self.orders@[i - 1],
            ));
        }
        assert(self.orders@.take(i as int) =~= self.orders@);
        let position = match &self.position {
            Some(p) => Some(p.clone()),
            None => None,
        };
        ShadowParts {
            starting_cash: self.starting_cash,
            cash: self.cash,
            position,
            orders,
            next_order_id: self.next_order_id,
            target_order_id: self.target_order_id,
            forced_order_id: self.forced_order_id,
            active_exit_reason: self.active_exit_reason,
            last_book: self.last_book,
            last_exit_book_sequence: self.last_exit_book_sequence,
            last_trade_sequence: self.last_trade_sequence,
        }
    }

    /// Takes up a session that was written down. What is no session is none: where orders are
    /// missing, out of turn, or do not offer the position.
    pub fn from_parts(parts: ShadowParts) -> (session: Option<Self>)
        ensures
            match session {
                Some(s) => parts@.wf() && s@ == parts@,
                None => !parts@.wf(),
            },
    {
        if !parts.is_sound() {
            return None;
        }
        Some(
            ShadowSession {
                starting_cash: parts.starting_cash,
                cash: parts.cash,
                position: parts.position,
                orders: parts.orders,
                next_order_id: parts.next_order_id,
                target_order_id: parts.target_order_id,
                forced_order_id: parts.forced_order_id,
                active_exit_reason: parts.active_exit_reason,
                last_book: parts.last_book,
                last_exit_book_sequence: parts.last_exit_book_sequence,
                last_trade_sequence: parts.last_trade_sequence,
            },
        )
    }

    /// The return of the price last seen on the entry, in billionths of a percent.
    pub fn simple_return_pct(&self) -> (rate: Option<i128>)
        ensures
            rate == (match self@.position {
                Some(p) => if p.entry_vwap == 0 {
                    None
                } else {
                    Some(return_rate(p.entry_vwap as int, p.last_price as int) as i128)
                },
                None => None,
            }),
    {
        match &self.position {
            Some(p) => p.simple_return_pct(),
            None => None,
        }
    }

    /// Copies the real account's cash once. The session owes nothing to the account afterwards.
    pub fn start(real_orderable_cash: u64) -> (session: Self)
        ensures
            session@ == ShadowView::started(real_orderable_cash),
            session@.wf(),
    {
        let session = ShadowSession {
            starting_cash: real_orderable_cash,
            cash: real_orderable_cash,
            position: None,
            orders: Vec::new(),
            next_order_id: 1,
            target_order_id: None,
            forced_order_id: None,
            active_exit_reason: None,
            last_book: None,
            last_exit_book_sequence: None,
            last_trade_sequence: None,
        };
        assert(session@.orders =~= Seq::empty());
        session
    }

    /// Takes up a stored position and cash as the same session.
    pub fn restore(starting_cash: u64, cash: u64, position: ShadowPosition) -> (session: Self)
        ensures
            session@ == (ShadowView {
                starting_cash,
                cash,
                position: Some(position),
                orders: seq![
                    ShadowOrder::fresh(
                        1,
                        position.product,
                        position.code,
                        ShadowSide::Sell,
                        ShadowOrderKind::Target,
                        position.qty,
                        Some(position.target_price),
                        position.first_fill_time,
                    ),
                ],
                next_order_id: 2,
                target_order_id: Some(1),
                ..ShadowView::started(cash)
            }),
            session@.wf(),
    {
        let target = ShadowOrder::new(
            1,
            position.product,
            position.code.clone(),
            ShadowSide::Sell,
            ShadowOrderKind::Target,
            position.qty,
            Some(position.target_price),
            position.first_fill_time,
        );
        let ghost made = target;
        let mut orders: Vec<ShadowOrder> = Vec::new();
        orders.push(target);
        assert(orders@ =~= seq![made]);
        ShadowSession {
            starting_cash,
            cash,
            position: Some(position),
            orders,
            next_order_id: 2,
            target_order_id: Some(1),
            forced_order_id: None,
            active_exit_reason: None,
            last_book: None,
            last_exit_book_sequence: None,
            last_trade_sequence: None,
        }
    }

    pub fn starting_cash(&self) -> (cash: u64)
        ensures
            cash == self@.starting_cash,
    {
        self.starting_cash
    }

    pub fn cash(&self) -> (cash: u64)
        ensures
            cash == self@.cash,
    {
        self.cash
    }

    pub fn position(&self) -> (position: Option<&ShadowPosition>)
        ensures
            match position {
                Some(p) => self@.position == Some(*p),
                None => self@.position is None,
            },
    {
        self.position.as_ref()
    }

    pub fn orders(&self) -> (orders: &[ShadowOrder])
        ensures
            orders@ == self@.orders,
    {
        self.orders.as_slice()
    }

    pub fn first_fill_time(&self) -> (at: Option<i64>)
        ensures
            at == (match self@.position {
                Some(p) => Some(p.first_fill_time),
                None => None,
            }),
    {
        match &self.position {
            Some(p) => Some(p.first_fill_time),
            None => None,
        }
    }

    pub fn pending_exit_reason(&self) -> (reason: Option<ExitReason>)
        ensures
            reason == self@.active_exit_reason,
    {
        self.active_exit_reason
    }

    /// Quantity and value of all sales so far.
    pub fn exit_summary(&self) -> (summary: (u64, u128))
        ensures
            summary.0 == (if sold_qty(self@.orders) <= u64::MAX {
                sold_qty(self@.orders) as int
            } else {
                u64::MAX as int
            }),
            summary.1 == (if traded_value(self@.orders, ShadowSide::Sell) <= u128::MAX {
                traded_value(self@.orders, ShadowSide::Sell) as int
            } else {
                u128::MAX as int
            }),
    {
        let mut qty: u64 = 0;
        let mut value: u128 = 0;
        let mut i: usize = 0;
        let ghost all = self.orders@;
        while i < self.orders.len()
            invariant
                i <= all.len(),
                all == self.orders@,
                qty == (if sold_qty(all.take(i as int)) <= u64::MAX {
                    sold_qty(all.take(i as int)) as int
                } else {
                    u64::MAX as int
                }),
                value == (if traded_value(all.take(i as int), ShadowSide::Sell) <= u128::MAX {
                    traded_value(all.take(i as int), ShadowSide::Sell) as int
                } else {
                    u128::MAX as int
                }),
            decreases all.len() - i,
        {
            assert(all.take(i + 1).drop_last() =~= all.take(i as int));
            if self.orders[i].side == ShadowSide::Sell {
                qty = qty.saturating_add(self.orders[i].filled_qty);
                value = value.saturating_add(self.orders[i].filled_value);
            }
            i += 1;
        }
        assert(all.take(i as int) =~= all);
        (qty, value)
    }

    /// After a restart the feed numbers anew: forgets what was consumed of it, and keeps cash,
    /// position, orders and a pending exit.
    pub fn prepare_for_restart(&mut self)
        ensures
            final(self)@ == (ShadowView {
                last_book: None,
                last_exit_book_sequence: None,
                last_trade_sequence: None,
                ..old(self)@
            }),
            old(self)@.wf() ==> final(self)@.wf(),
    {
        self.last_book = None;
        self.last_exit_book_sequence = None;
        self.last_trade_sequence = None;
    }

    /// Simulates an immediate-or-cancel entry at the best ask alone: 95 % of the cash, and no more
    /// than the ask offers.
    pub fn try_enter(
        &mut self,
        product: ShadowProduct,
        code: String,
        target_return_pct: i64,
        now: i64,
        book: ShadowBook,
    ) -> (result: Result<EntryOutcome, ShadowError>)
        requires
            old(self)@.wf(),
        ensures
            final(self)@.wf(),
            match old(self)@.entry_error(product, target_return_pct, now, book) {
                Some(error) => result == Err::<EntryOutcome, ShadowError>(error) && final(self)@
                    == old(self)@,
                None => result == Ok::<EntryOutcome, ShadowError>(
                    old(self)@.entry_outcome(target_return_pct, book),
                ) && final(self)@ == old(self)@.entered(
                    product,
                    code,
                    target_return_pct,
                    now,
                    book,
                ),
            },
    {
        if self.position.is_some() {
            return Err(ShadowError::PositionAlreadyOpen);
        }
        if book.product != product {
            return Err(ShadowError::ProductMismatch);
        }
        if book.ask_price == 0 {
            return Err(ShadowError::InvalidBook);
        }
        if !book.is_fresh_at(now) {
            return Err(ShadowError::StaleBook);
        }
        if !is_valid_target_return(Some(target_return_pct)) {
            return Err(ShadowError::InvalidTargetReturn);
        }
        let price: u64 = book.ask_price;
        let budget: u128 = self.cash as u128 * CASH_USE_BPS as u128 / BPS_DENOMINATOR as u128;
        let requested: u128 = budget / price as u128;
        proof {
            lemma_requested(self.cash as int, price as int, budget as int, requested as int);
        }
        let requested_qty: u64 = requested as u64;
        if requested_qty == 0 {
            return Err(ShadowError::NoAffordableQuantity);
        }
        if self.next_order_id > u64::MAX - 3 {
            return Err(ShadowError::ArithmeticOverflow);
        }
        let filled_qty: u64 = if requested_qty <= book.ask_qty {
            requested_qty
        } else {
            book.ask_qty
        };
        let entry_id: u64 = self.next_order_id;
        let mut entry = ShadowOrder::new(
            entry_id,
            product,
            code.clone(),
            ShadowSide::Buy,
            ShadowOrderKind::EntryIoc,
            requested_qty,
            Some(price),
            now,
        );
        entry.record_fill(filled_qty, price, now);
        entry.cancel_remainder(now);
        self.orders.push(entry);
        self.next_order_id = entry_id + 1;
        self.last_book = Some(book);
        if filled_qty == 0 {
            return Ok(
                EntryOutcome {
                    order_id: entry_id,
                    requested_qty,
                    filled_qty: 0,
                    fill_price: None,
                    target_order_id: None,
                    target_price: None,
                },
            );
        }
        proof {
            lemma_cost(self.cash as int, price as int, requested as int, filled_qty as int);
            lemma_target_fits(self.cash as int, price, requested as int, target_return_pct);
        }
        self.cash = self.cash - price * filled_qty;
        let target_price: u64 = match target_price_for(price, target_return_pct) {
            Ok(target_price) => target_price,
            Err(error) => return Err(error),
        };
        let target_id: u64 = entry_id + 1;
        self.orders.push(
            ShadowOrder::new(
                target_id,
                product,
                code.clone(),
                ShadowSide::Sell,
                ShadowOrderKind::Target,
                filled_qty,
                Some(target_price),
                now,
            ),
        );
        self.next_order_id = target_id + 1;
        self.position = Some(
            ShadowPosition {
                product,
                code,
                entry_qty: filled_qty,
                qty: filled_qty,
                entry_vwap: price,
                target_return_pct,
                target_price,
                first_fill_time: now,
                last_price: price,
                profit_guard_armed: false,
            },
        );
        self.target_order_id = Some(target_id);
        self.forced_order_id = None;
        self.active_exit_reason = None;
        self.last_exit_book_sequence = None;
        self.last_trade_sequence = None;
        Ok(
            EntryOutcome {
                order_id: entry_id,
                requested_qty,
                filled_qty,
                fill_price: Some(price),
                target_order_id: Some(target_id),
                target_price: Some(target_price),
            },
        )
    }

    /// Takes in one ETF trade: its price moves the return, and a price at the target fills the
    /// target order by no more than the trade's volume. A repeated sequence number is not used
    /// again.
    pub fn on_trade_tick(&mut self, tick: ShadowTradeTick) -> (result: Result<
        ShadowUpdate,
        ShadowError,
    >)
        requires
            old(self)@.wf(),
        ensures
            final(self)@.wf(),
            final(self)@ == old(self)@.after_trade(tick),
            result == old(self)@.trade_result(tick),
    {
        let admitted = match &self.position {
            None => false,
            Some(p) => p.product == tick.product && tick.price != 0 && tick.volume != 0,
        };
        if !admitted {
            return Ok(ShadowUpdate::default());
        }
        if let Some(previous) = self.last_trade_sequence {
            if tick.sequence <= previous {
                return Ok(ShadowUpdate::default());
            }
        }
        self.last_trade_sequence = Some(tick.sequence);
        let mut target_price: u64 = 0;
        if let Some(position) = &mut self.position {
            position.last_price = tick.price;
            if position.target_return_pct > AUTO_PROFIT_GUARD_PCT && is_return_above(
                position.entry_vwap,
                tick.price,
                AUTO_PROFIT_GUARD_PCT,
            ) {
                position.profit_guard_armed = true;
            }
            target_price = position.target_price;
        }
        assert(self@ == old(self)@.priced(tick));
        if let Some(reason) = self.select_forced_reason(tick.at, false) {
            self.begin_forced_exit(reason, tick.at);
            return match self.drive_forced_exit(tick.at) {
                Ok(update) => Ok(ShadowUpdate { accepted: true, ..update }),
                Err(error) => Err(error),
            };
        }
        if tick.price < target_price {
            return Ok(ShadowUpdate { accepted: true, ..ShadowUpdate::default() });
        }
        self.fill_target(tick)
    }

    /// Stores a new quote, and sells into its bid where an exit is under way or due.
    pub fn on_book(&mut self, book: ShadowBook) -> (result: Result<ShadowUpdate, ShadowError>)
        requires
            old(self)@.wf(),
        ensures
            final(self)@.wf(),
            final(self)@ == old(self)@.after_book(book),
            result == old(self)@.book_result(book),
    {
        let product = match &self.position {
            None => {
                self.last_book = Some(book);
                return Ok(ShadowUpdate { accepted: true, ..ShadowUpdate::default() });
            },
            Some(p) => p.product,
        };
        if product != book.product {
            return Ok(ShadowUpdate::default());
        }
        if let Some(previous) = self.last_book {
            if previous.product == book.product && book.sequence <= previous.sequence {
                return Ok(ShadowUpdate::default());
            }
        }
        self.last_book = Some(book);
        match self.evaluate_forced_exit(book.observed_at, false) {
            Ok(update) => Ok(ShadowUpdate { accepted: true, ..update }),
            Err(error) => Err(error),
        }
    }

    /// Called by a timer: looks for a loss of 0.3 %, 600 seconds of holding, and 15:15.
    pub fn poll(&mut self, now: i64) -> (result: Result<ShadowUpdate, ShadowError>)
        requires
            old(self)@.wf(),
        ensures
            final(self)@.wf(),
            final(self)@ == old(self)@.after_poll(now, false),
            result == old(self)@.poll_result(now, false),
    {
        self.evaluate_forced_exit(now, false)
    }

    /// Called when the simulation is left. A more urgent reason that holds at the same time stays.
    pub fn request_mode_exit(&mut self, now: i64) -> (result: Result<ShadowUpdate, ShadowError>)
        requires
            old(self)@.wf(),
        ensures
            final(self)@.wf(),
            final(self)@ == old(self)@.after_poll(now, true),
            result == old(self)@.poll_result(now, true),
    {
        self.evaluate_forced_exit(now, true)
    }

    fn evaluate_forced_exit(&mut self, now: i64, mode_exit: bool) -> (result: Result<
        ShadowUpdate,
        ShadowError,
    >)
        requires
            old(self)@.wf(),
        ensures
            final(self)@.wf(),
            final(self)@ == old(self)@.after_poll(now, mode_exit),
            result == old(self)@.poll_result(now, mode_exit),
    {
        if self.position.is_none() {
            return Ok(ShadowUpdate::default());
        }
        if let Some(reason) = self.select_forced_reason(now, mode_exit) {
            self.begin_forced_exit(reason, now);
        }
        self.drive_forced_exit(now)
    }

    fn select_forced_reason(&self, now: i64, mode_exit: bool) -> (reason: Option<ExitReason>)
        ensures
            reason == self@.forced_reason(now, mode_exit),
    {
        let position = match &self.position {
            Some(position) => position,
            None => return None,
        };
        let candidate = if has_reached_market_close(position.first_fill_time, now) {
            Some(ExitReason::MarketClose)
        } else if is_return_at_most(
            position.entry_vwap,
            position.last_price,
            STOP_LOSS_PCT + RETURN_EPSILON,
        ) {
            Some(ExitReason::StopLoss)
        } else if position.profit_guard_armed && is_return_at_most(
            position.entry_vwap,
            position.last_price,
            AUTO_PROFIT_GUARD_PCT + RETURN_EPSILON,
        ) {
            Some(ExitReason::ProfitGuard)
        } else if now as i128 - position.first_fill_time as i128 >= MAX_HOLD_SECONDS as i128 {
            Some(ExitReason::MaxHolding)
        } else if mode_exit {
            Some(ExitReason::ModeExit)
        } else {
            None
        };
        match (self.active_exit_reason, candidate) {
            (Some(active), Some(next)) => if active.priority() >= next.priority() {
                Some(active)
            } else {
                Some(next)
            },
            (Some(active), None) => Some(active),
            (None, next) => next,
        }
    }

    fn begin_forced_exit(&mut self, reason: ExitReason, now: i64)
        requires
            old(self)@.wf(),
            reason != ExitReason::TargetReached,
        ensures
            final(self)@.wf(),
            final(self)@ == old(self)@.exiting(reason, now),
    {
        let (product, code, qty) = match &self.position {
            None => return,
            Some(p) => (p.product, p.code.clone(), p.qty),
        };
        if let Some(active) = self.active_exit_reason {
            if active.priority() >= reason.priority() {
                return;
            }
        }
        self.active_exit_reason = Some(reason);
        if let Some(target_id) = self.target_order_id {
            let index: usize = self.order_index(target_id);
            self.orders[index].cancel_remainder(now);
            self.target_order_id = None;
        }
        if let Some(order_id) = self.forced_order_id {
            let index: usize = self.order_index(order_id);
            self.orders[index].kind = ShadowOrderKind::ForcedExit(reason);
            self.orders[index].updated_at = now;
            return;
        }
        let order_id: u64 = self.next_order_id;
        self.orders.push(
            ShadowOrder::new(
                order_id,
                product,
                code,
                ShadowSide::Sell,
                ShadowOrderKind::ForcedExit(reason),
                qty,
                None,
                now,
            ),
        );
        self.next_order_id = order_id + 1;
        self.forced_order_id = Some(order_id);
    }

    fn drive_forced_exit(&mut self, now: i64) -> (result: Result<ShadowUpdate, ShadowError>)
        requires
            old(self)@.wf(),
        ensures
            final(self)@.wf(),
            final(self)@ == old(self)@.driven(now),
            result == old(self)@.drive_result(now),
    {
        let reason = match self.active_exit_reason {
            Some(reason) => reason,
            None => return Ok(ShadowUpdate::default()),
        };
        let update = ShadowUpdate { exit_reason: Some(reason), ..ShadowUpdate::default() };
        let book = match self.last_book {
            Some(book) => book,
            None => return Ok(update),
        };
        let used = match self.last_exit_book_sequence {
            Some(sequence) => sequence == book.sequence,
            None => false,
        };
        if !book.is_fresh_at(now) || book.bid_price == 0 || book.bid_qty == 0 || used {
            return Ok(update);
        }
        self.last_exit_book_sequence = Some(book.sequence);
        let remaining: u64 = match &self.position {
            Some(p) => p.qty,
            None => 0,
        };
        let fill_qty: u64 = if remaining <= book.bid_qty {
            remaining
        } else {
            book.bid_qty
        };
        if fill_qty == 0 {
            return Ok(update);
        }
        let order_id: u64 = match self.forced_order_id {
            Some(order_id) => order_id,
            None => 0,
        };
        match self.apply_exit_fill(order_id, fill_qty, book.bid_price, now) {
            Err(error) => Err(error),
            Ok(closed) => Ok(
                ShadowUpdate {
                    fill: Some(
                        ShadowFill {
                            order_id,
                            product: book.product,
                            side: ShadowSide::Sell,
                            qty: fill_qty,
                            price: book.bid_price,
                            at: now,
                        },
                    ),
                    position_closed: closed,
                    ..update
                },
            ),
        }
    }

    fn fill_target(&mut self, tick: ShadowTradeTick) -> (result: Result<ShadowUpdate, ShadowError>)
        requires
            old(self)@.wf(),
            old(self)@.position is Some,
            old(self)@.active_exit_reason is None,
        ensures
            final(self)@.wf(),
            ({
                let before = old(self)@;
                let qty = before.target_fill(tick);
                let price = before.position->0.target_price;
                if before.can_credit(qty, price) {
                    &&& final(self)@ == before.sold(before.target_order_id->0, qty, price, tick.at)
                    &&& result == Ok::<ShadowUpdate, ShadowError>(
                        ShadowUpdate {
                            accepted: true,
                            fill: Some(
                                ShadowFill {
                                    order_id: before.target_order_id->0,
                                    product: tick.product,
                                    side: ShadowSide::Sell,
                                    qty,
                                    price,
                                    at: tick.at,
                                },
                            ),
                            exit_reason: Some(ExitReason::TargetReached),
                            position_closed: before.position->0.qty == qty,
                        },
                    )
                } else {
                    &&& final(self)@ == before
                    &&& result == Err::<ShadowUpdate, ShadowError>(
                        ShadowError::ArithmeticOverflow,
                    )
                }
            }),
    {
        let (held, target_price) = match &self.position {
            Some(p) => (p.qty, p.target_price),
            None => (0, 0),
        };
        let fill_qty: u64 = if held <= tick.volume {
            held
        } else {
            tick.volume
        };
        let order_id: u64 = match self.target_order_id {
            Some(order_id) => order_id,
            None => 0,
        };
        match self.apply_exit_fill(order_id, fill_qty, target_price, tick.at) {
            Err(error) => Err(error),
            Ok(closed) => Ok(
                ShadowUpdate {
                    accepted: true,
                    fill: Some(
                        ShadowFill {
                            order_id,
                            product: tick.product,
                            side: ShadowSide::Sell,
                            qty: fill_qty,
                            price: target_price,
                            at: tick.at,
                        },
                    ),
                    exit_reason: Some(ExitReason::TargetReached),
                    position_closed: closed,
                },
            ),
        }
    }

    fn order_index(&self, id: u64) -> (index: usize)
        requires
            1 <= id <= self@.orders.len(),
        ensures
            index == id - 1,
    {
        let count: usize = self.orders.len();
        assert(id - 1 < count);
        (id - 1) as usize
    }

    fn apply_exit_fill(&mut self, order_id: u64, qty: u64, price: u64, at: i64) -> (result: Result<
        bool,
        ShadowError,
    >)
        requires
            old(self)@.wf(),
            old(self)@.position is Some,
            qty <= old(self)@.position->0.qty,
            old(self)@.sells(order_id, old(self)@.position->0.qty),
            old(self)@.forced_order_id == Some(order_id) || old(self)@.target_order_id == Some(
                order_id,
            ),
        ensures
            final(self)@.wf(),
            if old(self)@.can_credit(qty, price) {
                &&& final(self)@ == old(self)@.sold(order_id, qty, price, at)
                &&& result == Ok::<bool, ShadowError>(old(self)@.position->0.qty == qty)
            } else {
                &&& final(self)@ == old(self)@
                &&& result == Err::<bool, ShadowError>(ShadowError::ArithmeticOverflow)
            },
    {
        let credit: u64 = match checked_value(price, qty) {
            Ok(credit) => credit,
            Err(error) => return Err(error),
        };
        self.cash = match self.cash.checked_add(credit) {
            Some(cash) => cash,
            None => return Err(ShadowError::ArithmeticOverflow),
        };
        let index: usize = self.order_index(order_id);
        self.orders[index].record_fill(qty, price, at);
        let mut closed = false;
        if let Some(position) = &mut self.position {
            position.qty = position.qty - qty;
            position.last_price = price;
            closed = position.qty == 0;
        }
        if closed {
            self.position = None;
            self.target_order_id = None;
            self.forced_order_id = None;
            self.active_exit_reason = None;
        }
        Ok(closed)
    }
}

proof fn lemma_requested(cash: int, price: int, budget: int, requested: int)
    requires
        0 <= cash <= u64::MAX,
        0 < price,
        budget == cash * CASH_USE_BPS / BPS_DENOMINATOR as int,
        requested == budget / price,
    ensures
        0 <= requested <= budget <= cash,
        requested * price <= budget,
        budget * 100 <= cash * 95,
{
    assert(requested * price <= budget && 0 <= requested <= budget) by (nonlinear_arith)
        requires
            requested == budget / price,
            0 < price,
            0 <= budget,
    ;
}

proof fn lemma_cost(cash: int, price: int, requested: int, filled: int)
    requires
        0 < price,
        0 <= filled <= requested,
        requested * price <= cash,
    ensures
        0 <= price * filled <= cash,
{
    assert(0 <= price * filled <= requested * price) by (nonlinear_arith)
        requires
            0 < price,
            0 <= filled <= requested,
    ;
}

proof fn lemma_target_fits(cash: int, price: u64, requested: int, pct: i64)
    requires
        0 <= cash <= u64::MAX,
        0 < price,
        requested >= 1,
        requested * price * 100 <= cash * 95,
        target_return_ok(Some(pct)),
    ensures
        target_price_spec(price, pct) <= u64::MAX,
{
    assert(price * 100 <= cash * 95) by (nonlinear_arith)
        requires
            requested >= 1,
            requested * price * 100 <= cash * 95,
            0 < price,
    ;
    let n = price * (100_000_000_000 + pct);
    let d = 100_000_000_000int;
    assert(0 <= n <= price * 102_000_000_000) by (nonlinear_arith)
        requires
            n == price * (100_000_000_000 + pct),
            0 <= pct <= 2_000_000_000,
    ;
    let w = (n + d - 1) / d;
    assert(w * 100 <= price * 102 + 200);
    lemma_ceil_to(w, 5);
}

spec fn value_on(order: ShadowOrder, side: ShadowSide) -> nat {
    if order.side == side {
        order.filled_value as nat
    } else {
        0
    }
}

spec fn sold_by(order: ShadowOrder) -> nat {
    if order.side == ShadowSide::Sell {
        order.filled_qty as nat
    } else {
        0
    }
}

proof fn lemma_totals_push(orders: Seq<ShadowOrder>, order: ShadowOrder)
    ensures
        forall|side: ShadowSide| #[trigger]
            traded_value(orders.push(order), side) == traded_value(orders, side) + value_on(
                order,
                side,
            ),
        sold_qty(orders.push(order)) == sold_qty(orders) + sold_by(order),
{
    assert(orders.push(order).drop_last() =~= orders);
}

proof fn lemma_totals_update(orders: Seq<ShadowOrder>, i: int, order: ShadowOrder)
    requires
        0 <= i < orders.len(),
    ensures
        forall|side: ShadowSide|
            #![trigger traded_value(orders.update(i, order), side)]
            traded_value(orders.update(i, order), side) + value_on(orders[i], side)
                == traded_value(orders, side) + value_on(order, side),
        sold_qty(orders.update(i, order)) + sold_by(orders[i]) == sold_qty(orders) + sold_by(
            order,
        ),
    decreases orders.len(),
{
    let updated = orders.update(i, order);
    if i == orders.len() - 1 {
        assert(updated.drop_last() =~= orders.drop_last());
    } else {
        assert(updated.drop_last() =~= orders.drop_last().update(i, order));
        lemma_totals_update(orders.drop_last(), i, order);
        assert(updated.last() == orders.last());
        assert forall|side: ShadowSide|
            #![trigger traded_value(updated, side)]
            traded_value(updated, side) + value_on(orders[i], side) == traded_value(orders, side)
                + value_on(order, side) by {
            assert(traded_value(orders.drop_last().update(i, order), side) + value_on(
                orders.drop_last()[i],
                side,
            ) == traded_value(orders.drop_last(), side) + value_on(order, side));
        }
    }
}

/// What the session owns, with the shares held at what they cost: the cash, plus what was spent,
/// less what was earned.
pub open spec fn balance(v: ShadowView) -> int {
    v.cash + traded_value(v.orders, ShadowSide::Buy) - traded_value(v.orders, ShadowSide::Sell)
}

/// Shares that are held or have been sold.
pub open spec fn shares(v: ShadowView) -> int {
    sold_qty(v.orders) + match v.position {
        Some(p) => p.qty as int,
        None => 0,
    }
}

proof fn lemma_sold(v: ShadowView, id: u64, qty: u64, price: u64, at: i64)
    requires
        v.position is Some,
        v.sells(id, v.position->0.qty),
        v.orders[id - 1].sound(),
        qty <= v.position->0.qty,
        v.can_credit(qty, price),
    ensures
        balance(v.sold(id, qty, price, at)) == balance(v),
        shares(v.sold(id, qty, price, at)) == shares(v),
{
    let order = v.orders[id - 1];
    lemma_fill_fits(order.filled_value as int, order.filled_qty as int, price as int, qty as int);
    lemma_totals_update(v.orders, id - 1, order.filled(qty, price, at));
    let after = v.sold(id, qty, price, at);
    assert(traded_value(after.orders, ShadowSide::Buy) + value_on(order, ShadowSide::Buy)
        == traded_value(v.orders, ShadowSide::Buy) + value_on(
        order.filled(qty, price, at),
        ShadowSide::Buy,
    ));
    assert(traded_value(after.orders, ShadowSide::Sell) + value_on(order, ShadowSide::Sell)
        == traded_value(v.orders, ShadowSide::Sell) + value_on(
        order.filled(qty, price, at),
        ShadowSide::Sell,
    ));
    if qty == 0 {
        assert(price * qty == 0) by (nonlinear_arith)
            requires
                qty == 0,
        ;
    }
}

proof fn lemma_exiting(v: ShadowView, reason: ExitReason, now: i64)
    requires
        v.wf(),
        reason != ExitReason::TargetReached,
    ensures
        v.exiting(reason, now).wf(),
        balance(v.exiting(reason, now)) == balance(v),
        shares(v.exiting(reason, now)) == shares(v),
        v.exiting(reason, now).cash == v.cash,
        v.exiting(reason, now).position == v.position,
        v.exiting(reason, now).last_book == v.last_book,
        v.exiting(reason, now).last_exit_book_sequence == v.last_exit_book_sequence,
        v.exiting(reason, now).last_trade_sequence == v.last_trade_sequence,
{
    if v.position is Some && !(v.active_exit_reason is Some && v.active_exit_reason->0.rank()
        >= reason.rank()) {
        let orders = match v.target_order_id {
            Some(id) => v.orders.update(id - 1, v.orders[id - 1].cancelled(now)),
            None => v.orders,
        };
        if let Some(id) = v.target_order_id {
            lemma_totals_update(v.orders, id - 1, v.orders[id - 1].cancelled(now));
        }
        let kind = ShadowOrderKind::ForcedExit(reason);
        match v.forced_order_id {
            Some(id) => {
                lemma_totals_update(
                    orders,
                    id - 1,
                    ShadowOrder { kind, updated_at: now, ..orders[id - 1] },
                );
            },
            None => {
                let p = v.position->0;
                lemma_totals_push(
                    orders,
                    ShadowOrder::fresh(
                        v.next_order_id,
                        p.product,
                        p.code,
                        ShadowSide::Sell,
                        kind,
                        p.qty,
                        None,
                        now,
                    ),
                );
            },
        }
        let after = v.exiting(reason, now);
        assert(traded_value(after.orders, ShadowSide::Buy) == traded_value(
            v.orders,
            ShadowSide::Buy,
        ));
        assert(traded_value(after.orders, ShadowSide::Sell) == traded_value(
            v.orders,
            ShadowSide::Sell,
        ));
    }
}

proof fn lemma_driven(v: ShadowView, now: i64)
    requires
        v.wf(),
    ensures
        balance(v.driven(now)) == balance(v),
        shares(v.driven(now)) == shares(v),
{
    let book = v.last_book->0;
    let seen = ShadowView { last_exit_book_sequence: Some(book.sequence), ..v };
    if v.active_exit_reason is Some && v.bid_usable(now) && v.bid_fill() != 0 && v.can_credit(
        v.bid_fill(),
        book.bid_price,
    ) {
        lemma_sold(seen, v.forced_order_id->0, v.bid_fill(), book.bid_price, now);
    }
}

/// A look at the clock creates and destroys neither money nor shares: what a sale takes from the
/// position it adds to the cash, at the price it reports.
pub proof fn polling_conserves(v: ShadowView, now: i64, mode_exit: bool)
    requires
        v.wf(),
    ensures
        balance(v.after_poll(now, mode_exit)) == balance(v),
        shares(v.after_poll(now, mode_exit)) == shares(v),
        match v.poll_result(now, mode_exit) {
            Ok(update) => v.after_poll(now, mode_exit).cash == v.cash + match update.fill {
                Some(fill) => fill.price * fill.qty,
                None => 0,
            },
            Err(_) => v.after_poll(now, mode_exit).cash == v.cash,
        },
{
    if v.position is Some {
        if let Some(reason) = v.forced_reason(now, mode_exit) {
            lemma_exiting(v, reason, now);
        }
        lemma_driven(v.evaluated(now, mode_exit), now);
    }
}

/// The same of a quote.
pub proof fn quoting_conserves(v: ShadowView, book: ShadowBook)
    requires
        v.wf(),
    ensures
        balance(v.after_book(book)) == balance(v),
        shares(v.after_book(book)) == shares(v),
{
    if v.admits_book(book) {
        polling_conserves(ShadowView { last_book: Some(book), ..v }, book.observed_at, false);
    }
}

/// The same of a trade.
pub proof fn trading_conserves(v: ShadowView, tick: ShadowTradeTick)
    requires
        v.wf(),
    ensures
        balance(v.after_trade(tick)) == balance(v),
        shares(v.after_trade(tick)) == shares(v),
{
    if v.admits_trade(tick) {
        let priced = v.priced(tick);
        let target_price = priced.position->0.target_price;
        assert(priced.wf());
        if priced.forced_reason(tick.at, false) is Some {
            lemma_exiting(priced, priced.forced_reason(tick.at, false)->0, tick.at);
            lemma_driven(priced.evaluated(tick.at, false), tick.at);
        } else if tick.price >= target_price && priced.can_credit(
            priced.target_fill(tick),
            target_price,
        ) {
            lemma_sold(
                priced,
                v.target_order_id->0,
                priced.target_fill(tick),
                target_price,
                tick.at,
            );
        }
    }
}

/// Shares of the open position.
pub open spec fn held(v: ShadowView) -> int {
    match v.position {
        Some(p) => p.qty as int,
        None => 0,
    }
}

/// A report tells of a sale what became of the session: the cash has grown by its value, the position
/// has fallen by its shares, and is said to be closed where nothing is left of it. A report without a
/// sale leaves both as they were.
pub open spec fn reports_sale(before: ShadowView, after: ShadowView, update: ShadowUpdate) -> bool {
    match update.fill {
        Some(fill) => {
            &&& fill.side == ShadowSide::Sell
            &&& fill.qty <= held(before)
            &&& after.cash == before.cash + fill.qty * fill.price
            &&& held(after) == held(before) - fill.qty
            &&& update.position_closed <==> after.position is None
            &&& update.position_closed <==> held(after) == 0
        },
        None => {
            &&& after.cash == before.cash
            &&& held(after) == held(before)
            &&& after.position is None <==> before.position is None
            &&& !update.position_closed
        },
    }
}

proof fn lemma_driven_reports(v: ShadowView, now: i64)
    requires
        v.wf(),
        v.position is Some,
    ensures
        match v.drive_result(now) {
            Ok(update) => reports_sale(v, v.driven(now), update) && update.exit_reason
                == v.active_exit_reason,
            Err(_) => v.driven(now).cash == v.cash && v.driven(now).position == v.position,
        },
{
    let price = v.last_book->0.bid_price;
    let qty = v.bid_fill();
    assert(price * qty == qty * price) by (nonlinear_arith);
}

/// What a look at the clock reports is what it has sold, and never at the target price.
pub proof fn poll_reports_its_sale(v: ShadowView, now: i64, mode_exit: bool)
    requires
        v.wf(),
    ensures
        match v.poll_result(now, mode_exit) {
            Ok(update) => reports_sale(v, v.after_poll(now, mode_exit), update)
                && update.exit_reason != Some(ExitReason::TargetReached),
            Err(_) => v.after_poll(now, mode_exit).cash == v.cash && held(
                v.after_poll(now, mode_exit),
            ) == held(v),
        },
{
    if v.position is Some {
        if let Some(reason) = v.forced_reason(now, mode_exit) {
            lemma_exiting(v, reason, now);
        }
        lemma_driven_reports(v.evaluated(now, mode_exit), now);
    }
}

/// What a trade reports is what it has sold. A target that is reached sells at the target price, and
/// as much of the position as the trade's volume takes.
pub proof fn trade_reports_its_sale(v: ShadowView, tick: ShadowTradeTick)
    requires
        v.wf(),
    ensures
        match v.trade_result(tick) {
            Ok(update) => {
                &&& reports_sale(v, v.after_trade(tick), update)
                &&& update.exit_reason == Some(ExitReason::TargetReached) ==> update.fill is Some
                    && update.fill->0.price == v.position->0.target_price && update.fill->0.qty == (
                if v.position->0.qty <= tick.volume {
                    v.position->0.qty
                } else {
                    tick.volume
                })
            },
            Err(_) => v.after_trade(tick).cash == v.cash && held(v.after_trade(tick)) == held(v),
        },
{
    if v.admits_trade(tick) {
        let priced = v.priced(tick);
        assert(priced.wf());
        if priced.forced_reason(tick.at, false) is Some {
            lemma_exiting(priced, priced.forced_reason(tick.at, false)->0, tick.at);
            lemma_driven_reports(priced.evaluated(tick.at, false), tick.at);
        } else {
            let price = priced.position->0.target_price;
            let qty = priced.target_fill(tick);
            assert(price * qty == qty * price) by (nonlinear_arith);
        }
    }
}

/// An entry creates no money, adds exactly the shares that it reports, and spends no more than
/// 95 % of the cash.
pub proof fn entering_conserves(
    v: ShadowView,
    product: ShadowProduct,
    code: String,
    target_return_pct: i64,
    now: i64,
    book: ShadowBook,
)
    requires
        v.wf(),
        v.entry_error(product, target_return_pct, now, book) is None,
    ensures
        ({
            let after = v.entered(product, code, target_return_pct, now, book);
            let outcome = v.entry_outcome(target_return_pct, book);
            &&& balance(after) == balance(v)
            &&& shares(after) == shares(v) + outcome.filled_qty
            &&& (v.cash - after.cash) * 100 <= v.cash * 95
            &&& outcome.filled_qty <= outcome.requested_qty
            &&& outcome.filled_qty <= book.ask_qty
        }),
{
    let price = book.ask_price;
    let qty = v.entry_fill(book);
    let requested = v.affordable(price);
    let budget = v.cash * CASH_USE_BPS / BPS_DENOMINATOR as int;
    lemma_requested(v.cash as int, price as int, budget, requested);
    lemma_cost(budget, price as int, requested, qty as int);
    let fresh = ShadowOrder::fresh(
        v.next_order_id,
        product,
        code,
        ShadowSide::Buy,
        ShadowOrderKind::EntryIoc,
        requested as u64,
        Some(price),
        now,
    );
    let entry = fresh.filled(qty, price, now).cancelled(now);
    let target = ShadowOrder::fresh(
        (v.next_order_id + 1) as u64,
        product,
        code,
        ShadowSide::Sell,
        ShadowOrderKind::Target,
        qty,
        Some(target_price_spec(price, target_return_pct) as u64),
        now,
    );
    lemma_totals_push(v.orders, entry);
    lemma_totals_push(v.orders.push(entry), target);
    let after = v.entered(product, code, target_return_pct, now, book);
    assert(traded_value(v.orders.push(entry), ShadowSide::Buy) == traded_value(
        v.orders,
        ShadowSide::Buy,
    ) + price * qty);
    assert(traded_value(v.orders.push(entry), ShadowSide::Sell) == traded_value(
        v.orders,
        ShadowSide::Sell,
    ));
    assert(traded_value(after.orders, ShadowSide::Buy) == traded_value(v.orders, ShadowSide::Buy)
        + price * qty);
    assert(traded_value(after.orders, ShadowSide::Sell) == traded_value(
        v.orders,
        ShadowSide::Sell,
    ));
}

/// While a position is open, the reason for its exit never gives way to a weaker one.
pub proof fn exit_reason_only_rises(
    v: ShadowView,
    now: i64,
    mode_exit: bool,
    book: ShadowBook,
    tick: ShadowTradeTick,
)
    requires
        v.wf(),
        v.active_exit_reason is Some,
    ensures
        ({
            let r = v.active_exit_reason->0.rank();
            let polled = v.after_poll(now, mode_exit);
            let quoted = v.after_book(book);
            let traded = v.after_trade(tick);
            &&& polled.position is Some ==> polled.active_exit_reason is Some
                && polled.active_exit_reason->0.rank() >= r
            &&& quoted.position is Some ==> quoted.active_exit_reason is Some
                && quoted.active_exit_reason->0.rank() >= r
            &&& traded.position is Some ==> traded.active_exit_reason is Some
                && traded.active_exit_reason->0.rank() >= r
        }),
{
}

/// The bid of one quote is sold into once: after a sale, nothing is sold until a new quote comes.
pub proof fn quote_is_used_once(v: ShadowView, now: i64, mode_exit: bool, later: i64, again: bool)
    requires
        v.wf(),
        v.poll_result(now, mode_exit) matches Ok(update) && update.fill is Some,
    ensures
        v.after_poll(now, mode_exit).poll_result(later, again) matches Ok(update)
            && update.fill is None,
        v.after_poll(now, mode_exit).after_poll(later, again).cash == v.after_poll(
            now,
            mode_exit,
        ).cash,
{
}

/// A trade that was consumed, and every trade numbered no higher, does nothing afterwards.
pub proof fn trade_is_used_once(v: ShadowView, tick: ShadowTradeTick, again: ShadowTradeTick)
    requires
        v.wf(),
        v.admits_trade(tick),
        again.sequence <= tick.sequence,
    ensures
        v.after_trade(tick).after_trade(again) == v.after_trade(tick),
        v.after_trade(tick).trade_result(again) == Ok::<ShadowUpdate, ShadowError>(
            ShadowUpdate::nothing(),
        ),
{
}

/// What is asked of a simulated entry.
#[derive(Debug)]
pub struct ShadowEntryRequest {
    pub existing_session: Option<ShadowSession>,
    pub copy_real_cash: bool,
    pub fallback_cash: u64,
    pub product: ShadowProduct,
    pub code: String,
    pub target_return_pct: i64,
    pub now: i64,
    pub book: ShadowBook,
}

/// A session that has entered.
#[derive(Debug)]
pub struct PreparedShadowEntry {
    pub session: ShadowSession,
    pub outcome: EntryOutcome,
    /// Cash that was copied from the real account for this entry.
    pub copied_cash: Option<u64>,
}

/// Why an entry could not be prepared.
#[derive(Debug, PartialEq, Eq)]
pub enum ShadowExecutionError {
    /// The account could not be asked for its cash.
    Cash(String),
    Simulation(ShadowError),
}

/// The session that an entry starts from: a new one with the account's cash where that was asked
/// for, else the one at hand, else a new one with the fallback cash.
pub open spec fn entry_session(request: ShadowEntryRequest, account_cash: u64) -> ShadowView {
    if request.copy_real_cash {
        ShadowView::started(account_cash)
    } else if request.existing_session is Some {
        request.existing_session->0@
    } else {
        ShadowView::started(request.fallback_cash)
    }
}

/// Enters with what the account said of its cash. The reply is looked at only where the request
/// asks for the account's cash; where it does, a reply that failed ends the entry.
pub fn prepare_entry(request: ShadowEntryRequest, account_cash: Result<u64, String>) -> (result:
    Result<PreparedShadowEntry, ShadowExecutionError>)
    requires
        request.existing_session is Some ==> request.existing_session->0@.wf(),
    ensures
        if request.copy_real_cash && account_cash is Err {
            result matches Err(ShadowExecutionError::Cash(message)) && message
                == account_cash->Err_0
        } else {
            let cash = match account_cash {
                Ok(cash) => cash,
                Err(_) => 0,
            };
            let before = entry_session(request, cash);
            match before.entry_error(
                request.product,
                request.target_return_pct,
                request.now,
                request.book,
            ) {
                Some(error) => result matches Err(ShadowExecutionError::Simulation(e)) && e
                    == error,
                None => {
                    &&& result matches Ok(prepared)
                    &&& prepared.session@.wf()
                    &&& prepared.session@ == before.entered(
                        request.product,
                        request.code,
                        request.target_return_pct,
                        request.now,
                        request.book,
                    )
                    &&& prepared.outcome == before.entry_outcome(
                        request.target_return_pct,
                        request.book,
                    )
                    &&& prepared.copied_cash == (if request.copy_real_cash {
                        Some(cash)
                    } else {
                        None
                    })
                },
            }
        },
{
    let copied_cash: Option<u64> = if request.copy_real_cash {
        match account_cash {
            Ok(cash) => Some(cash),
            Err(message) => return Err(ShadowExecutionError::Cash(message)),
        }
    } else {
        None
    };
    let mut session = match copied_cash {
        Some(cash) => ShadowSession::start(cash),
        None => match request.existing_session {
            Some(session) => session,
            None => ShadowSession::start(request.fallback_cash),
        },
    };
    match session.try_enter(
        request.product,
        request.code,
        request.target_return_pct,
        request.now,
        request.book,
    ) {
        Err(error) => Err(ShadowExecutionError::Simulation(error)),
        Ok(outcome) => Ok(PreparedShadowEntry { session, outcome, copied_cash }),
    }
}

/// A trade is of the ETF that is held, is a real one, and is newer than every trade before it.
pub open spec fn concerns(v: ShadowView, tick: ShadowTradeTick) -> bool {
    &&& v.position is Some
    &&& tick.product == v.position->0.product
    &&& tick.price > 0
    &&& tick.volume > 0
    &&& v.last_trade_sequence matches Some(last) ==> last < tick.sequence
}

/// A trade of another ETF than the one that is held, one without a price or a volume, and one that is
/// no newer than the last changes nothing and reports nothing. Any other is taken in: it is remembered
/// by its number, and the position that is left was last seen at its price, or at that of the sale
/// that it led to.
pub proof fn only_trades_of_the_holding_count(v: ShadowView, tick: ShadowTradeTick)
    requires
        v.wf(),
    ensures
        !concerns(v, tick) ==> v.after_trade(tick) == v && v.trade_result(tick) == Ok::<
            ShadowUpdate,
            ShadowError,
        >(
            ShadowUpdate { accepted: false, fill: None, exit_reason: None, position_closed: false },
        ),
        concerns(v, tick) ==> {
            let after = v.after_trade(tick);
            &&& after.last_trade_sequence == Some(tick.sequence)
            &&& v.trade_result(tick) matches Ok(update) ==> {
                &&& update.accepted
                &&& update.fill is None ==> after.position is Some && after.position->0.last_price
                    == tick.price
                &&& update.fill matches Some(fill) ==> (after.position matches Some(p)
                    ==> p.last_price == fill.price)
            }
        },
{
}

/// A reason to leave a position that was last seen at a price: the close of its day, a loss of 0.3 %,
/// a profit that was guarded and has fallen back, ten minutes, or the end of the mode.
pub open spec fn calls_for_exit(
    p: ShadowPosition,
    price: u64,
    guarded: bool,
    now: i64,
    mode_exit: bool,
    reason: ExitReason,
) -> bool {
    let gain = (price - p.entry_vwap) * 100_000_000_000;
    match reason {
        ExitReason::TargetReached => false,
        ExitReason::ModeExit => mode_exit,
        ExitReason::MaxHolding => now - p.first_fill_time >= 600,
        ExitReason::ProfitGuard => guarded && p.entry_vwap > 0 && gain <= 300_000_010
            * p.entry_vwap,
        ExitReason::StopLoss => p.entry_vwap > 0 && gain <= -299_999_990 * p.entry_vwap,
        ExitReason::MarketClose => now >= p.first_fill_time - p.first_fill_time as int % 86_400
            + 15 * 3_600 + 15 * 60,
    }
}

/// The more urgent of two reasons: the close of the day, then a loss, then a guarded profit, then the
/// time, then the end of the mode.
pub open spec fn no_less_urgent(a: ExitReason, b: ExitReason) -> bool {
    match b {
        ExitReason::TargetReached => true,
        ExitReason::ModeExit => a != ExitReason::TargetReached,
        ExitReason::MaxHolding => a != ExitReason::TargetReached && a != ExitReason::ModeExit,
        ExitReason::ProfitGuard => a == ExitReason::ProfitGuard || a == ExitReason::StopLoss || a
            == ExitReason::MarketClose,
        ExitReason::StopLoss => a == ExitReason::StopLoss || a == ExitReason::MarketClose,
        ExitReason::MarketClose => a == ExitReason::MarketClose,
    }
}

/// The ranks of the reasons are in the order of their urgency.
pub proof fn ranks_follow_urgency(a: ExitReason, b: ExitReason)
    ensures
        a.rank() >= b.rank() <==> no_less_urgent(a, b),
{
}

/// A report gives the most urgent of the reasons that hold and of the one under way, and gives one
/// exactly where there is one.
pub open spec fn tells_most_urgent(
    v: ShadowView,
    price: u64,
    guarded: bool,
    now: i64,
    mode_exit: bool,
    told: Option<ExitReason>,
) -> bool {
    let p = v.position->0;
    match told {
        Some(reason) => {
            &&& v.active_exit_reason == Some(reason) || calls_for_exit(
                p,
                price,
                guarded,
                now,
                mode_exit,
                reason,
            )
            &&& v.active_exit_reason matches Some(active) ==> no_less_urgent(reason, active)
            &&& forall|other: ExitReason| #[trigger]
                calls_for_exit(p, price, guarded, now, mode_exit, other) ==> no_less_urgent(
                    reason,
                    other,
                )
        },
        None => {
            &&& v.active_exit_reason is None
            &&& forall|other: ExitReason|
                !#[trigger] calls_for_exit(p, price, guarded, now, mode_exit, other)
        },
    }
}

/// A quote that can be sold into: no more than ten seconds old, with a bid, and not used before.
pub open spec fn offers_bid(v: ShadowView, now: i64) -> bool {
    v.last_book matches Some(book) && {
        &&& book.observed_at <= now <= book.observed_at + 10
        &&& book.bid_price > 0
        &&& book.bid_qty > 0
        &&& v.last_exit_book_sequence != Some(book.sequence)
    }
}

/// The sale into the bid at hand: at its price, and of as many shares as are held and bid for.
pub open spec fn sells_into_bid(v: ShadowView, fill: ShadowFill, now: i64) -> bool {
    let book = v.last_book->0;
    &&& fill.side == ShadowSide::Sell
    &&& fill.price == book.bid_price
    &&& fill.qty <= v.position->0.qty
    &&& fill.qty <= book.bid_qty
    &&& fill.qty == v.position->0.qty || fill.qty == book.bid_qty
    &&& fill.at == now
    &&& fill.product == book.product
}

/// A look at the clock leaves a position for the most urgent reason that holds, and then sells into
/// the bid at hand, if that can be sold into and used.
pub proof fn poll_leaves_for_a_reason(v: ShadowView, now: i64, mode_exit: bool)
    requires
        v.wf(),
        v.position is Some,
    ensures
        v.poll_result(now, mode_exit) matches Ok(update) ==> {
            let p = v.position->0;
            &&& !update.accepted
            &&& tells_most_urgent(
                v,
                p.last_price,
                p.profit_guard_armed,
                now,
                mode_exit,
                update.exit_reason,
            )
            &&& update.fill is Some <==> update.exit_reason is Some && offers_bid(v, now) && p.qty > 0
            &&& update.fill matches Some(fill) ==> sells_into_bid(v, fill, now)
            &&& update.fill is Some ==> v.after_poll(now, mode_exit).last_exit_book_sequence == Some(
                v.last_book->0.sequence,
            )
            &&& v.after_poll(now, mode_exit).position is Some ==> v.after_poll(
                now,
                mode_exit,
            ).active_exit_reason == update.exit_reason
        },
        v.poll_result(now, mode_exit) is Err ==> offers_bid(v, now) && v.cash
            + v.last_book->0.bid_price * v.position->0.qty > u64::MAX,
{
    let p = v.position->0;
    let e = v.evaluated(now, mode_exit);
    lemma_due(v, now, mode_exit);
    if let Some(reason) = v.forced_reason(now, mode_exit) {
        lemma_exiting(v, reason, now);
    }
    if v.poll_result(now, mode_exit) is Err {
        assert(v.last_book->0.bid_price * e.bid_fill() <= v.last_book->0.bid_price * p.qty)
            by (nonlinear_arith)
            requires
                e.bid_fill() <= p.qty,
        ;
    }
}

/// Which reason is due.
proof fn lemma_due(v: ShadowView, now: i64, mode_exit: bool)
    requires
        v.wf(),
        v.position is Some,
    ensures
        tells_most_urgent(
            v,
            v.position->0.last_price,
            v.position->0.profit_guard_armed,
            now,
            mode_exit,
            v.forced_reason(now, mode_exit),
        ),
{
    let p = v.position->0;
    let g = p.profit_guard_armed;
    let due = exit_condition(p, now, mode_exit);
    assert forall|other: ExitReason| #[trigger]
        calls_for_exit(p, p.last_price, g, now, mode_exit, other) implies due is Some
        && no_less_urgent(due->0, other) by {}
    assert(due matches Some(reason) ==> calls_for_exit(p, p.last_price, g, now, mode_exit, reason));
}

/// A trade of the holding guards a profit above 0.3 % of a position that aims higher, leaves for the
/// most urgent reason that then holds by selling into the bid at hand, and where none holds sells at
/// the target price exactly where it trades at it or above.
pub proof fn trade_leaves_for_a_reason(v: ShadowView, tick: ShadowTradeTick)
    requires
        v.wf(),
        concerns(v, tick),
    ensures
        v.trade_result(tick) matches Ok(update) ==> {
            let p = v.position->0;
            let guarded = p.profit_guard_armed || (p.target_return_pct > 300_000_000 && ((
            p.entry_vwap == 0 || (tick.price - p.entry_vwap) * 100_000_000_000 > 300_000_000
                * p.entry_vwap)));
            &&& v.after_trade(tick).position matches Some(q) ==> q.profit_guard_armed == guarded
            &&& update.exit_reason != Some(ExitReason::TargetReached) ==> {
                &&& tells_most_urgent(v, tick.price, guarded, tick.at, false, update.exit_reason)
                &&& update.fill is Some <==> update.exit_reason is Some && offers_bid(v, tick.at)
                    && p.qty > 0
                &&& update.fill matches Some(fill) ==> sells_into_bid(v, fill, tick.at)
                &&& update.exit_reason is None ==> tick.price < p.target_price
            }
            &&& update.exit_reason == Some(ExitReason::TargetReached) ==> {
                &&& tells_most_urgent(v, tick.price, guarded, tick.at, false, None)
                &&& tick.price >= p.target_price
                &&& update.fill matches Some(fill) && {
                    &&& fill.side == ShadowSide::Sell
                    &&& fill.price == p.target_price
                    &&& fill.qty <= p.qty && fill.qty <= tick.volume
                    &&& fill.qty == p.qty || fill.qty == tick.volume
                    &&& fill.product == p.product
                    &&& fill.at == tick.at
                    &&& Some(fill.order_id) == v.target_order_id
                }
            }
        },
{
    let p = v.position->0;
    let priced = v.priced(tick);
    assert(priced.wf());
    lemma_due(priced, tick.at, false);
    let q = priced.position->0;
    assert forall|reason: ExitReason|
        calls_for_exit(p, tick.price, q.profit_guard_armed, tick.at, false, reason)
            == #[trigger] calls_for_exit(
            q,
            q.last_price,
            q.profit_guard_armed,
            tick.at,
            false,
            reason,
        ) by {}
    assert forall|reason: ExitReason| #[trigger]
        calls_for_exit(p, tick.price, q.profit_guard_armed, tick.at, false, reason)
            == calls_for_exit(q, q.last_price, q.profit_guard_armed, tick.at, false, reason) by {}
    if let Some(reason) = priced.forced_reason(tick.at, false) {
        lemma_exiting(priced, reason, tick.at);
    }
}

/// A quote of another ETF than the one that is held, and one no newer than the one at hand, changes
/// nothing. Any other is the one at hand from then on, and while something is held the session looks
/// at the clock by it.
pub proof fn only_quotes_of_the_holding_count(v: ShadowView, book: ShadowBook)
    requires
        v.wf(),
    ensures
        ({
            let stale = v.position matches Some(p) && (p.product != book.product || (
            v.last_book matches Some(last) && last.product == book.product && book.sequence
                <= last.sequence));
            let seen = ShadowView { last_book: Some(book), ..v };
            &&& stale ==> v.after_book(book) == v && v.book_result(book) == Ok::<
                ShadowUpdate,
                ShadowError,
            >(
                ShadowUpdate {
                    accepted: false,
                    fill: None,
                    exit_reason: None,
                    position_closed: false,
                },
            )
            &&& !stale ==> v.after_book(book).last_book == Some(book)
            &&& !stale && v.position is None ==> v.after_book(book) == seen
            &&& !stale ==> v.after_book(book) == seen.after_poll(book.observed_at, false)
            &&& !stale ==> (v.book_result(book) matches Ok(update) ==> {
                &&& update.accepted
                &&& seen.poll_result(book.observed_at, false) == Ok::<ShadowUpdate, ShadowError>(
                    ShadowUpdate { accepted: false, ..update },
                )
            })
        }),
{
}

/// The order that a sale goes through has sold as much more at the sale's price, and is filled where
/// nothing is left of it; no other order sells anything. Once an exit is under way the target order
/// waits no longer.
pub proof fn sale_is_booked_on_its_order(v: ShadowView, now: i64, mode_exit: bool)
    requires
        v.wf(),
        v.poll_result(now, mode_exit) matches Ok(update) && update.fill is Some,
    ensures
        ({
            let fill = v.poll_result(now, mode_exit)->Ok_0.fill->0;
            let after = v.after_poll(now, mode_exit);
            let id = fill.order_id;
            let order = after.orders[id - 1];
            &&& 1 <= id <= after.orders.len()
            &&& order.side == ShadowSide::Sell
            &&& order.requested_qty - order.filled_qty == v.position->0.qty - fill.qty
            &&& order.status == ShadowOrderStatus::Filled <==> v.position->0.qty == fill.qty
            &&& order.status == ShadowOrderStatus::PartiallyFilled <==> v.position->0.qty > fill.qty
            &&& id <= v.orders.len() ==> order.filled_qty == v.orders[id - 1].filled_qty + fill.qty
                && order.filled_value == v.orders[id - 1].filled_value + fill.qty * fill.price
            &&& id > v.orders.len() ==> order.filled_qty == fill.qty && order.filled_value
                == fill.qty * fill.price
            &&& forall|i: int|
                0 <= i < v.orders.len() && i != id - 1 ==> (#[trigger] after.orders[i]).filled_qty
                    == v.orders[i].filled_qty && after.orders[i].filled_value
                    == v.orders[i].filled_value && after.orders[i].requested_qty
                    == v.orders[i].requested_qty
            &&& v.target_order_id matches Some(target) ==> after.orders[target - 1].status
                != ShadowOrderStatus::Pending && after.orders[target - 1].status
                != ShadowOrderStatus::PartiallyFilled
            &&& after.target_order_id is None
        }),
{
    let reason = v.forced_reason(now, mode_exit);
    if reason is Some {
        lemma_exiting(v, reason->0, now);
    }
    let e = v.evaluated(now, mode_exit);
    let qty = e.bid_fill();
    let price = v.last_book->0.bid_price;
    assert(price * qty == qty * price) by (nonlinear_arith);
    assert(e.sells(e.forced_order_id->0, e.position->0.qty));
    let id = e.forced_order_id->0;
    assert(e.orders[id - 1].sound());
    lemma_fill_fits(
        e.orders[id - 1].filled_value as int,
        e.orders[id - 1].filled_qty as int,
        price as int,
        qty as int,
    );
}

/// An entry is made exactly where nothing is held, the quote is of the ETF, has an ask and is no more
/// than ten seconds old, the target is a valid one, and 95 % of the cash buys a share. It buys at the
/// ask as many shares as 95 % of the cash buys and the ask offers, and offers them for sale at the
/// target price at once.
pub proof fn entry_buys_what_it_can(
    v: ShadowView,
    product: ShadowProduct,
    code: String,
    target_return_pct: i64,
    now: i64,
    book: ShadowBook,
)
    requires
        v.wf(),
        v.next_order_id <= u64::MAX - 3,
    ensures
        ({
            let error = v.entry_error(product, target_return_pct, now, book);
            let usable = book.ask_price > 0 && book.observed_at <= now <= book.observed_at + 10;
            &&& error is None <==> v.position is None && book.product == product && usable
                && target_return_ok(Some(target_return_pct)) && v.cash * 95 >= book.ask_price * 100
            &&& error == Some(ShadowError::PositionAlreadyOpen) <==> v.position is Some
            &&& error == Some(ShadowError::ProductMismatch) <==> v.position is None && book.product
                != product
            &&& error == Some(ShadowError::InvalidBook) ==> book.ask_price == 0
            &&& error == Some(ShadowError::StaleBook) ==> !(book.observed_at <= now
                <= book.observed_at + 10)
            &&& error == Some(ShadowError::InvalidTargetReturn) ==> !target_return_ok(
                Some(target_return_pct),
            )
            &&& error == Some(ShadowError::NoAffordableQuantity) ==> book.ask_price > 0 && v.cash
                * 95 < book.ask_price * 100
            &&& error is None ==> {
                let after = v.entered(product, code, target_return_pct, now, book);
                let told = v.entry_outcome(target_return_pct, book);
                let n = v.orders.len() as int;
                let aim = book.ask_price * (100_000_000_000 + target_return_pct);
                &&& told.requested_qty * book.ask_price * 100 <= v.cash * 95
                &&& (told.requested_qty + 1) * book.ask_price * 100 > v.cash * 95
                &&& told.filled_qty <= told.requested_qty && told.filled_qty <= book.ask_qty
                &&& told.filled_qty == told.requested_qty || told.filled_qty == book.ask_qty
                &&& after.last_book == Some(book)
                &&& after.starting_cash == v.starting_cash
                &&& told.order_id == v.next_order_id
                &&& after.orders[n].side == ShadowSide::Buy
                &&& after.orders[n].filled_qty == told.filled_qty
                &&& after.orders[n].requested_qty == told.requested_qty
                &&& after.orders[n].limit_price == Some(book.ask_price)
                &&& told.filled_qty == 0 ==> after.position is None && after.cash == v.cash
                    && told.fill_price is None && told.target_price is None
                    && told.target_order_id is None
                &&& told.filled_qty > 0 ==> {
                    &&& told.fill_price == Some(book.ask_price)
                    &&& told.target_price matches Some(t) && t as int % 5 == 0 && (t - 5)
                        * 100_000_000_000 < aim <= t * 100_000_000_000
                    &&& told.target_order_id == after.target_order_id
                    &&& after.position matches Some(p) && {
                        &&& p.product == product
                        &&& p.code == code
                        &&& p.qty == told.filled_qty
                        &&& p.entry_qty == told.filled_qty
                        &&& p.entry_vwap == book.ask_price
                        &&& p.last_price == book.ask_price
                        &&& p.first_fill_time == now
                        &&& p.target_return_pct == target_return_pct
                        &&& Some(p.target_price) == told.target_price
                        &&& !p.profit_guard_armed
                    }
                    &&& after.cash == v.cash - told.filled_qty * book.ask_price
                    &&& after.last_trade_sequence is None
                    &&& after.active_exit_reason is None
                    &&& after.target_order_id == Some((v.next_order_id + 1) as u64)
                    &&& after.orders[n + 1].limit_price == told.target_price
                    &&& after.orders[n + 1].side == ShadowSide::Sell
                    &&& after.orders[n + 1].requested_qty == told.filled_qty
                    &&& after.orders[n + 1].filled_qty == 0
                    &&& after.orders[n + 1].status == ShadowOrderStatus::Pending
                }
            }
        }),
{
    if book.ask_price > 0 {
        let price = book.ask_price as int;
        let budget = v.cash * 9_500 / 10_000;
        let requested = v.affordable(book.ask_price);
        lemma_requested(v.cash as int, price, budget, requested);
        lemma_affordable(v.cash as int, price, budget, requested);
        if v.entry_error(product, target_return_pct, now, book) is None {
            lemma_target_fits(v.cash as int, book.ask_price, requested, target_return_pct);
            target_is_the_first_tick(book.ask_price, target_return_pct);
        }
        if requested <= u64::MAX {
            lemma_cost(budget, price, requested, v.entry_fill(book) as int);
        }
        let qty = v.entry_fill(book);
        assert(book.ask_price * qty == qty * book.ask_price) by (nonlinear_arith);
    }
}

/// The whole number of shares that 95 % of the cash buys.
proof fn lemma_affordable(cash: int, price: int, budget: int, requested: int)
    requires
        0 <= cash,
        0 < price,
        budget == cash * 9_500 / 10_000,
        requested == budget / price,
    ensures
        requested * price * 100 <= cash * 95 < (requested + 1) * price * 100,
        requested == 0 <==> cash * 95 < price * 100,
{
    vstd::arithmetic::div_mod::lemma_fundamental_div_mod(budget, price);
    vstd::arithmetic::div_mod::lemma_mod_bound(budget, price);
    assert(requested * price == price * requested) by (nonlinear_arith);
    assert((requested + 1) * price == requested * price + price) by (nonlinear_arith);
    assert(0 <= requested) by (nonlinear_arith)
        requires
            requested == budget / price,
            0 <= budget,
            0 < price,
    ;
    assert(requested >= 1 ==> requested * price >= price) by (nonlinear_arith)
        requires
            0 < price,
    ;
    assert(requested == 0 ==> requested * price == 0) by (nonlinear_arith);
}

/// A session begins with its cash and nothing else, and one that is taken up offers its position at
/// the target price.
pub proof fn session_begins_with_its_cash(cash: u64)
    ensures
        ({
            let v = ShadowView::started(cash);
            &&& v.cash == cash
            &&& v.starting_cash == cash
            &&& v.position is None
            &&& v.orders.len() == 0
            &&& v.last_book is None
            &&& v.last_trade_sequence is None
            &&& v.active_exit_reason is None
        }),
{
}

/// An order counts what is filled and what that came to, and is filled once nothing is left; what is
/// withdrawn of it stays unfilled. What it is for does not change.
pub proof fn order_counts_its_fills(order: ShadowOrder, qty: u64, price: u64, at: i64)
    requires
        order.sound(),
        0 < qty <= order.remaining(),
    ensures
        ({
            let after = order.filled(qty, price, at);
            let gone = order.cancelled(at);
            &&& after.filled_qty == order.filled_qty + qty
            &&& after.filled_value == order.filled_value + price * qty
            &&& after.remaining() == order.remaining() - qty
            &&& after.status == ShadowOrderStatus::Filled <==> after.remaining() == 0
            &&& after.remaining() > 0 ==> after.status == ShadowOrderStatus::PartiallyFilled
            &&& after.id == order.id && after.side == order.side && after.requested_qty
                == order.requested_qty && after.limit_price == order.limit_price
                && after.created_at == order.created_at && after.updated_at == at
            &&& gone.filled_qty == order.filled_qty && gone.filled_value == order.filled_value
            &&& gone.status == (if order.filled_qty == 0 {
                ShadowOrderStatus::Cancelled
            } else {
                ShadowOrderStatus::PartiallyFilledCancelled
            })
            &&& gone.id == order.id && gone.requested_qty == order.requested_qty
            &&& after.remaining() == 0 ==> after.cancelled(at).status == ShadowOrderStatus::Filled
        }),
{
    let a = order.filled_value as int;
    let n = order.filled_qty as int;
    let q = qty as int;
    let p = price as int;
    assert(0 <= p * q && a + p * q <= u64::MAX * u64::MAX) by (nonlinear_arith)
        requires
            0 <= a <= n * u64::MAX,
            0 <= p <= u64::MAX,
            0 <= n,
            0 <= q,
            n + q <= u64::MAX,
    ;
}

} // verus!
