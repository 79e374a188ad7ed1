//! Plain data that the modules exchange.

use vstd::prelude::*;

verus! {

/// A point of the process's own monotonic clock, or a span of it, in nanoseconds.
pub type Nanos = u128;

/// Who decides on orders.
#[derive(Debug, Clone, Copy, PartialEq, Eq, Structural)]
pub enum ControlMode {
    Manual,
    Auto,
    Shadow,
}

/// Whether the exchange trades today.
#[derive(Debug, Clone, Copy, PartialEq, Eq, Structural)]
pub enum MarketDayStatus {
    Open,
    Closed,
    Unknown,
}

/// The two ETFs that a decision can pick.
#[derive(Debug, Clone, Copy, PartialEq, Eq, Structural)]
pub enum ProductKind {
    Leverage,
    Inverse,
}

#[derive(Debug, Clone, Copy, PartialEq, Eq, Structural)]
pub enum Side {
    Buy,
    Sell,
}

/// Where a scenario of an OCO group stands.
#[derive(Debug, Clone, Copy, PartialEq, Eq, Structural)]
pub enum ScenarioStatus {
    Armed,
    Confirming,
    Triggered,
    Expired,
    Replaced,
    CancelledByOco,
    Invalid,
    /// The trigger price had been passed before the decision could be applied.
    Missed,
    /// The price that speaks against the scenario was reached.
    Invalidated,
}

#[derive(Debug, Clone, Copy, PartialEq, Eq, Structural)]
pub enum AutomationPhase {
    Reconciling,
    Idle,
    Analyzing,
    ArmedOco,
    EntryPending,
    Holding,
    ExitPending,
    Handoff,
    Suspended,
}

#[derive(Debug, Clone, Copy, PartialEq, Eq, Structural)]
pub enum AutomationDecisionStatus {
    Armed,
    Skipped,
    Invalid,
    Triggered,
    Expired,
    Replaced,
    Missed,
    Invalidated,
    Error,
}

#[derive(Debug, Clone, Copy, PartialEq, Eq, Structural)]
pub enum MarketRegime {
    Uptrend,
    Downtrend,
    Range,
    Transition,
    Unclear,
}

#[derive(Debug, Clone, Copy, PartialEq, Eq, Structural)]
pub enum SetupType {
    Continuation,
    Reversal,
}

impl Default for ControlMode {
    fn default() -> (mode: Self)
        ensures
            mode == ControlMode::Manual,
    {
        ControlMode::Manual
    }
}

impl Default for MarketDayStatus {
    fn default() -> (status: Self)
        ensures
            status == MarketDayStatus::Unknown,
    {
        MarketDayStatus::Unknown
    }
}

/// The chart setup that a scenario was read from.
#[derive(Debug, PartialEq, Eq)]
pub struct ScenarioSetup {
    pub setup_type: SetupType,
    pub reference_price: u64,
    /// The price that confirms the setup, as the model gave it.
    pub confirmation_price: u64,
    /// A trade at or beyond this price ends the scenario.
    pub invalidation_price: u64,
    pub rationale_ko: String,
}

impl Clone for ScenarioSetup {
    fn clone(&self) -> (copy: Self)
        ensures
            copy == *self,
    {
        ScenarioSetup {
            setup_type: self.setup_type,
            reference_price: self.reference_price,
            confirmation_price: self.confirmation_price,
            invalidation_price: self.invalidation_price,
            rationale_ko: self.rationale_ko.clone(),
        }
    }
}

/// One direction of a decision, as the model gave it.
#[derive(Debug, PartialEq, Eq)]
pub struct ModelScenario {
    pub product: ProductKind,
    pub trigger_price: u64,
    /// In billionths of a percent; `None` for what is not a finite number.
    pub target_return_pct: Option<i64>,
    pub setup: Option<ScenarioSetup>,
}

/// A decision as the model gave it: no scenario means to stay out.
#[derive(Debug, PartialEq, Eq)]
pub struct ModelDecision {
    pub scenarios: Vec<ModelScenario>,
}

/// The codes that automation trades: the share that is watched, and its two ETFs.
#[derive(Debug, PartialEq, Eq)]
pub struct AutoSymbols {
    pub underlying: String,
    pub leverage: String,
    pub inverse: String,
}

impl Default for AutoSymbols {
    fn default() -> (symbols: Self)
        ensures
            symbols.underlying@ == "000660"@,
            symbols.leverage@ == "0193T0"@,
            symbols.inverse@ == "0197X0"@,
    {
        AutoSymbols {
            underlying: "000660".to_owned(),
            leverage: "0193T0".to_owned(),
            inverse: "0197X0".to_owned(),
        }
    }
}

impl ProductKind {
    pub open spec fn code_spec(self, symbols: AutoSymbols) -> Seq<char> {
        match self {
            ProductKind::Leverage => symbols.leverage@,
            ProductKind::Inverse => symbols.inverse@,
        }
    }

    /// Code of the ETF.
    pub fn code<'a>(&self, symbols: &'a AutoSymbols) -> (code: &'a str)
        ensures
            code@ == self.code_spec(*symbols),
    {
        match self {
            ProductKind::Leverage => symbols.leverage.as_str(),
            ProductKind::Inverse => symbols.inverse.as_str(),
        }
    }
}

/// A scenario as the desk shows it.
#[derive(Debug)]
pub struct AutomationScenarioInfo {
    pub id: i64,
    pub product: ProductKind,
    pub code: String,
    pub trigger_price: u64,
    /// In billionths of a percent.
    pub target_return_pct: i64,
    pub setup: Option<ScenarioSetup>,
    pub reference_observed_at: Option<i64>,
    pub status: ScenarioStatus,
    /// Why the scenario ended without an entry, where it did.
    pub terminal_reason: Option<String>,
    pub confirming_ticks: u32,
    pub confirming_elapsed_ms: u64,
}

/// A position as the desk shows it.
#[derive(Debug)]
pub struct AutomationPositionInfo {
    pub product: ProductKind,
    pub code: String,
    pub qty: u64,
    /// In ten-thousandths of a won.
    pub avg_price: u64,
    /// In billionths of a percent.
    pub pnl_rate: i128,
    pub target_return_pct: i64,
    pub target_price: u64,
    pub exit_deadline: i64,
    pub shadow: bool,
    pub profit_guard_armed: bool,
}

/// All that the desk shows of automation.
#[derive(Debug)]
pub struct AutomationSnapshot {
    pub runtime_id: String,
    pub runtime_generation: u64,
    pub mode: ControlMode,
    pub phase: AutomationPhase,
    pub revision: u64,
    pub next_decision_at: Option<i64>,
    pub decision_id: Option<i64>,
    pub group_id: Option<i64>,
    pub decision_status: Option<AutomationDecisionStatus>,
    pub market_regime: Option<MarketRegime>,
    pub decision_summary_ko: Option<String>,
    pub scenarios: Vec<AutomationScenarioInfo>,
    pub position: Option<AutomationPositionInfo>,
    pub shadow_cash: Option<u64>,
    pub error: Option<String>,
    pub market_day_status: MarketDayStatus,
    pub market_day_message: Option<String>,
}

/// One bar of a chart. `time` is the wall-clock second at which it begins, prices are in won.
#[derive(Debug, Clone, Copy, PartialEq, Eq, Structural)]
pub struct Candle {
    pub time: i64,
    pub open: u64,
    pub high: u64,
    pub low: u64,
    pub close: u64,
    pub volume: u64,
}

/// An exact fraction.
#[derive(Debug, Clone, Copy, PartialEq, Eq, Structural)]
pub struct Ratio {
    pub numerator: u128,
    pub denominator: u128,
}

/// What the exchange says of a code. Prices are in won, and zero where there is none.
#[derive(Debug, PartialEq, Eq)]
pub struct Quote {
    pub code: String,
    pub price: u64,
    /// In billionths of a percent.
    pub change_rate: i64,
    pub ask1: u64,
    pub bid1: u64,
    pub ask1_qty: u64,
    pub bid1_qty: u64,
    /// Shares of this trade; zero where only the book has changed.
    pub volume: u64,
    /// A number by which trades are told apart: a frame that is sent again has the same.
    pub trade_sequence: u64,
    /// When the frame was read, on the process's own clock, in microseconds.
    pub received_at_micros: u64,
    pub trade_ts: i64,
    pub book_ts: i64,
}

#[verifier::ext_equal]
pub struct QuoteView {
    pub code: Seq<char>,
    pub price: u64,
    pub change_rate: i64,
    pub ask1: u64,
    pub bid1: u64,
    pub ask1_qty: u64,
    pub bid1_qty: u64,
    pub volume: u64,
    pub trade_sequence: u64,
    pub received_at_micros: u64,
    pub trade_ts: i64,
    pub book_ts: i64,
}

impl View for Quote {
    type V = QuoteView;

    open spec fn view(&self) -> QuoteView {
        QuoteView {
            code: self.code@,
            price: self.price,
            change_rate: self.change_rate,
            ask1: self.ask1,
            bid1: self.bid1,
            ask1_qty: self.ask1_qty,
            bid1_qty: self.bid1_qty,
            volume: self.volume,
            trade_sequence: self.trade_sequence,
            received_at_micros: self.received_at_micros,
            trade_ts: self.trade_ts,
            book_ts: self.book_ts,
        }
    }
}

/// Shares that the account holds.
#[derive(Debug, PartialEq, Eq)]
pub struct Position {
    pub code: String,
    pub qty: u64,
    /// In ten-thousandths of a won.
    pub avg_price: u64,
    /// In ten-thousandths of a won.
    pub eval_pnl: i128,
    /// In billionths of a percent.
    pub pnl_rate: i64,
}

#[verifier::ext_equal]
pub struct HoldingView {
    pub code: Seq<char>,
    pub qty: u64,
    pub avg_price: u64,
    pub eval_pnl: i128,
    pub pnl_rate: i64,
}

impl View for Position {
    type V = HoldingView;

    open spec fn view(&self) -> HoldingView {
        HoldingView {
            code: self.code@,
            qty: self.qty,
            avg_price: self.avg_price,
            eval_pnl: self.eval_pnl,
            pnl_rate: self.pnl_rate,
        }
    }
}

#[derive(Debug)]
pub struct AccountSnapshot {
    pub cash: u64,
    pub positions: Vec<Position>,
}

/// The outcome of an order as the desk shows it.
#[derive(Debug, PartialEq, Eq)]
pub struct OrderResult {
    pub ok: bool,
    pub side: Side,
    pub code: String,
    pub qty: u64,
    pub price: u64,
    pub message: String,
    pub local_order_id: Option<i64>,
}

/// A fill that the broker tells of.
#[derive(Debug, PartialEq, Eq)]
pub struct FillEvent {
    pub fill_id: String,
    pub order_no: String,
    pub original_order_no: String,
    pub org_no: String,
    pub code: String,
    pub side: Side,
    pub qty: u64,
    /// In ten-thousandths of a won.
    pub price: u64,
    pub filled_at: i64,
    pub status: String,
}

#[verifier::ext_equal]
pub struct FillEventView {
    pub fill_id: Seq<char>,
    pub order_no: Seq<char>,
    pub original_order_no: Seq<char>,
    pub org_no: Seq<char>,
    pub code: Seq<char>,
    pub side: Side,
    pub qty: u64,
    pub price: u64,
    pub filled_at: i64,
    pub status: Seq<char>,
}

impl View for FillEvent {
    type V = FillEventView;

    open spec fn view(&self) -> FillEventView {
        FillEventView {
            fill_id: self.fill_id@,
            order_no: self.order_no@,
            original_order_no: self.original_order_no@,
            org_no: self.org_no@,
            code: self.code@,
            side: self.side,
            qty: self.qty,
            price: self.price,
            filled_at: self.filled_at,
            status: self.status@,
        }
    }
}

/// A sale that waits for its price, as the desk shows it.
#[derive(Debug, PartialEq, Eq)]
pub struct ReservationInfo {
    pub code: String,
    /// Return on the average price, in billionths of a percent.
    pub target_pct: i64,
    pub target_price: u64,
    pub qty: u64,
    pub status: String,
    pub reason: Option<String>,
}

/// What comes in from the exchange.
#[derive(Debug, PartialEq, Eq)]
pub enum FeedEvent {
    Quote(Quote),
    /// The book has changed, and nothing has traded.
    Book { code: String, ask1: u64, bid1: u64, ask1_qty: u64, bid1_qty: u64, ts: i64 },
    Fill(FillEvent),
    Conn(bool),
}

#[verifier::ext_equal]
pub enum FeedView {
    Quote(QuoteView),
    Book { code: Seq<char>, ask1: u64, bid1: u64, ask1_qty: u64, bid1_qty: u64, ts: i64 },
    Fill(FillEventView),
    Conn(bool),
}

impl View for FeedEvent {
    type V = FeedView;

    open spec fn view(&self) -> FeedView {
        match self {
            FeedEvent::Quote(quote) => FeedView::Quote(quote@),
            FeedEvent::Book { code, ask1, bid1, ask1_qty, bid1_qty, ts } => FeedView::Book {
                code: code@,
                ask1: *ask1,
                bid1: *bid1,
                ask1_qty: *ask1_qty,
                bid1_qty: *bid1_qty,
                ts: *ts,
            },
            FeedEvent::Fill(fill) => FeedView::Fill(fill@),
            FeedEvent::Conn(up) => FeedView::Conn(*up),
        }
    }
}

} // verus!
