//! What a broker tells of orders.

use vstd::prelude::*;

use crate::text::same;
use crate::types::Side;

verus! {

/// An order that was taken in. Fills come separately, from the feed.
#[derive(Debug, PartialEq, Eq)]
pub struct OrderAck {
    pub order_no: String,
    /// The office that the exchange has the order from, by which it is found when it is taken back.
    pub org_no: String,
    pub message: String,
}

#[verifier::ext_equal]
pub struct AckView {
    pub order_no: Seq<char>,
    pub org_no: Seq<char>,
    pub message: Seq<char>,
}

impl View for OrderAck {
    type V = AckView;

    open spec fn view(&self) -> AckView {
        AckView { order_no: self.order_no@, org_no: self.org_no@, message: self.message@ }
    }
}

/// An order of which something can still be taken back.
#[derive(Debug, PartialEq, Eq)]
pub struct BrokerOpenOrder {
    pub order_no: String,
    pub original_order_no: String,
    pub org_no: String,
    pub code: String,
    pub side: Side,
    pub ordered_qty: u64,
    pub filled_qty: u64,
    pub cancelable_qty: u64,
    /// In ten-thousandths of a won.
    pub price: u64,
    pub ordered_at: i64,
}

#[verifier::ext_equal]
pub struct OpenOrderView {
    pub order_no: Seq<char>,
    pub original_order_no: Seq<char>,
    pub org_no: Seq<char>,
    pub code: Seq<char>,
    pub side: Side,
    pub ordered_qty: u64,
    pub filled_qty: u64,
    pub cancelable_qty: u64,
    pub price: u64,
    pub ordered_at: i64,
}

impl View for BrokerOpenOrder {
    type V = OpenOrderView;

    open spec fn view(&self) -> OpenOrderView {
        OpenOrderView {
            order_no: self.order_no@,
            original_order_no: self.original_order_no@,
            org_no: self.org_no@,
            code: self.code@,
            side: self.side,
            ordered_qty: self.ordered_qty,
            filled_qty: self.filled_qty,
            cancelable_qty: self.cancelable_qty,
            price: self.price,
            ordered_at: self.ordered_at,
        }
    }
}

/// What was filled of an order on a day.
#[derive(Debug, PartialEq, Eq)]
pub struct BrokerFill {
    pub fill_id: String,
    pub order_no: String,
    pub original_order_no: String,
    pub org_no: String,
    pub code: String,
    pub side: Side,
    pub qty: u64,
    /// In ten-thousandths of a won.
    pub price: u64,
    pub filled_at: i64,
}

#[verifier::ext_equal]
pub struct BrokerFillView {
    pub fill_id: Seq<char>,
    pub order_no: Seq<char>,
    pub original_order_no: Seq<char>,
    pub org_no: Seq<char>,
    pub code: Seq<char>,
    pub side: Side,
    pub qty: u64,
    pub price: u64,
    pub filled_at: i64,
}

impl View for BrokerFill {
    type V = BrokerFillView;

    open spec fn view(&self) -> BrokerFillView {
        BrokerFillView {
            fill_id: self.fill_id@,
            order_no: self.order_no@,
            original_order_no: self.original_order_no@,
            org_no: self.org_no@,
            code: self.code@,
            side: self.side,
            qty: self.qty,
            price: self.price,
            filled_at: self.filled_at,
        }
    }
}

/// Where one order stands by the broker's running totals of its day.
///
/// That an order is no longer among the open ones does not tell a fill from a cancellation, a
/// rejection or a late answer. An exit may be ordered again only when `is_terminal` holds.
#[derive(Debug, PartialEq, Eq)]
pub struct BrokerOrderStatus {
    pub trading_date: String,
    pub order_no: String,
    pub original_order_no: String,
    pub org_no: String,
    pub code: String,
    pub side: Side,
    pub ordered_qty: u64,
    pub filled_qty: u64,
    pub cancelled_qty: u64,
    pub remaining_qty: u64,
    pub rejected_qty: u64,
    /// In ten-thousandths of a won.
    pub avg_fill_price: u64,
    pub ordered_at: i64,
}

#[verifier::ext_equal]
pub struct OrderStatusView {
    pub trading_date: Seq<char>,
    pub order_no: Seq<char>,
    pub original_order_no: Seq<char>,
    pub org_no: Seq<char>,
    pub code: Seq<char>,
    pub side: Side,
    pub ordered_qty: u64,
    pub filled_qty: u64,
    pub cancelled_qty: u64,
    pub remaining_qty: u64,
    pub rejected_qty: u64,
    pub avg_fill_price: u64,
    pub ordered_at: i64,
}

impl View for BrokerOrderStatus {
    type V = OrderStatusView;

    open spec fn view(&self) -> OrderStatusView {
        OrderStatusView {
            trading_date: self.trading_date@,
            order_no: self.order_no@,
            original_order_no: self.original_order_no@,
            org_no: self.org_no@,
            code: self.code@,
            side: self.side,
            ordered_qty: self.ordered_qty,
            filled_qty: self.filled_qty,
            cancelled_qty: self.cancelled_qty,
            remaining_qty: self.remaining_qty,
            rejected_qty: self.rejected_qty,
            avg_fill_price: self.avg_fill_price,
            ordered_at: self.ordered_at,
        }
    }
}

impl OrderStatusView {
    /// Nothing of the order remains, its shares are all accounted for, and what was filled has a
    /// price.
    pub open spec fn terminal(self) -> bool {
        &&& self.ordered_qty > 0
        &&& self.remaining_qty == 0
        &&& self.filled_qty + self.cancelled_qty + self.rejected_qty == self.ordered_qty
        &&& self.filled_qty > 0 ==> self.avg_fill_price > 0
    }
}

impl BrokerOrderStatus {
    /// Whether it is settled that nothing more of this order will be filled.
    ///
    /// While the broker's totals are being brought up to date they may not add up to the order,
    /// even with nothing remaining, and a fill may have no price yet: the order then counts as
    /// going on. Totals above the order are a contradiction and count the same.
    pub fn is_terminal(&self) -> (yes: bool)
        ensures
            yes == self@.terminal(),
    {
        if self.ordered_qty == 0 || (self.filled_qty > 0 && self.avg_fill_price == 0) {
            return false;
        }
        let settled: u128 = self.filled_qty as u128 + self.cancelled_qty as u128
            + self.rejected_qty as u128;
        self.remaining_qty == 0 && settled == self.ordered_qty as u128
    }

    /// Whether two answers say the same.
    pub fn same_as(&self, other: &BrokerOrderStatus) -> (yes: bool)
        ensures
            yes == (self@ == other@),
    {
        same(self.trading_date.as_str(), other.trading_date.as_str()) && same(
            self.order_no.as_str(),
            other.order_no.as_str(),
        ) && same(self.original_order_no.as_str(), other.original_order_no.as_str()) && same(
            self.org_no.as_str(),
            other.org_no.as_str(),
        ) && same(self.code.as_str(), other.code.as_str()) && self.side == other.side
            && self.ordered_qty == other.ordered_qty && self.filled_qty == other.filled_qty
            && self.cancelled_qty == other.cancelled_qty && self.remaining_qty
            == other.remaining_qty && self.rejected_qty == other.rejected_qty
            && self.avg_fill_price == other.avg_fill_price && self.ordered_at == other.ordered_at
    }
}

/// An order that is settled leaves nothing open: no one of its totals is above the order.
pub proof fn terminal_totals_are_within_the_order(status: OrderStatusView)
    requires
        status.terminal(),
    ensures
        status.filled_qty <= status.ordered_qty,
        status.cancelled_qty <= status.ordered_qty,
        status.rejected_qty <= status.ordered_qty,
        status.remaining_qty == 0,
{
}

/// Whether the exchange trades on a day.
#[derive(Debug, PartialEq, Eq)]
pub struct BrokerMarketDay {
    /// Written `YYYYMMDD`.
    pub date: String,
    pub is_open: bool,
}

#[verifier::ext_equal]
pub struct MarketDayView {
    pub date: Seq<char>,
    pub is_open: bool,
}

impl View for BrokerMarketDay {
    type V = MarketDayView;

    open spec fn view(&self) -> MarketDayView {
        MarketDayView { date: self.date@, is_open: self.is_open }
    }
}

/// An order is settled where nothing of it is left and all its shares were filled, taken back or
/// refused; filled shares have a price.
pub proof fn settled_order_is_accounted_for(status: OrderStatusView)
    ensures
        status.terminal() ==> status.remaining_qty == 0 && status.ordered_qty > 0
            && status.filled_qty + status.cancelled_qty + status.rejected_qty == status.ordered_qty,
        status.terminal() && status.filled_qty > 0 ==> status.avg_fill_price > 0,
        status.remaining_qty > 0 || status.ordered_qty == 0 ==> !status.terminal(),
        status.filled_qty == status.ordered_qty && status.ordered_qty > 0 && status.remaining_qty
            == 0 && status.cancelled_qty == 0 && status.rejected_qty == 0 && status.avg_fill_price
            > 0 ==> status.terminal(),
{
}

} // verus!
