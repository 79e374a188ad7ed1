//! What the ledger records, and what its records say.

use vstd::prelude::*;

use crate::ledger::kinds::{
    LedgerControlMode, LedgerDecisionStatus, LedgerExecutionKind, LedgerMarketRegime,
    LedgerOrderStatus, LedgerOrderType, LedgerOrigin, LedgerProductKind, LedgerScenarioStatus,
    LedgerSessionStatus, LedgerSetupType, LedgerSide, LedgerTradeStatus,
};
use crate::tables::{rows, Keyed};
use crate::text::{copy_text, opt};

verus! {

/// A session that begins.
#[derive(Debug, PartialEq, Eq)]
pub struct NewSession {
    pub session_id: String,
    pub execution_kind: LedgerExecutionKind,
    pub control_mode: LedgerControlMode,
    pub starting_cash: Option<u64>,
    pub started_at: i64,
}

#[verifier::ext_equal]
pub struct SessionSeed {
    pub session_id: Seq<char>,
    pub execution_kind: LedgerExecutionKind,
    pub control_mode: LedgerControlMode,
    pub starting_cash: Option<u64>,
    pub started_at: i64,
}

impl View for NewSession {
    type V = SessionSeed;

    open spec fn view(&self) -> SessionSeed {
        SessionSeed {
            session_id: self.session_id@,
            execution_kind: self.execution_kind,
            control_mode: self.control_mode,
            starting_cash: self.starting_cash,
            started_at: self.started_at,
        }
    }
}

impl Clone for NewSession {
    fn clone(&self) -> (copy: Self)
        ensures
            copy == *self,
    {
        NewSession {
            session_id: self.session_id.clone(),
            execution_kind: self.execution_kind,
            control_mode: self.control_mode,
            starting_cash: self.starting_cash,
            started_at: self.started_at,
        }
    }
}

/// A session of the book.
#[derive(Debug, PartialEq, Eq)]
pub struct SessionRecord {
    pub id: i64,
    pub session: NewSession,
    pub status: LedgerSessionStatus,
    pub ended_at: Option<i64>,
}

#[verifier::ext_equal]
pub struct SessionView {
    pub id: i64,
    pub session: SessionSeed,
    pub status: LedgerSessionStatus,
    pub ended_at: Option<i64>,
}

impl View for SessionRecord {
    type V = SessionView;

    open spec fn view(&self) -> SessionView {
        SessionView {
            id: self.id,
            session: self.session@,
            status: self.status,
            ended_at: self.ended_at,
        }
    }
}

impl Clone for SessionRecord {
    fn clone(&self) -> (copy: Self)
        ensures
            copy == *self,
    {
        SessionRecord {
            id: self.id,
            session: self.session.clone(),
            status: self.status,
            ended_at: self.ended_at,
        }
    }
}

/// A decision of the model.
#[derive(Debug, PartialEq, Eq)]
pub struct NewDecision {
    pub decision_id: String,
    pub session_id: Option<String>,
    pub control_mode: LedgerControlMode,
    pub revision: i64,
    pub as_of_ts: i64,
    pub expires_at: i64,
    /// In ten-thousandths of a won.
    pub underlying_price: u64,
    pub status: LedgerDecisionStatus,
    pub model: String,
    pub prompt_version: String,
    pub input_tokens: u64,
    pub cached_input_tokens: u64,
    pub cache_write_tokens: u64,
    pub output_tokens: u64,
    pub reasoning_tokens: u64,
    pub latency_ms: u64,
    pub input_hash: Option<String>,
    pub chart_hash: Option<String>,
    pub market_regime: Option<LedgerMarketRegime>,
    pub decision_summary_ko: Option<String>,
    pub error: Option<String>,
    pub created_at: i64,
}

#[verifier::ext_equal]
pub struct DecisionSeed {
    pub decision_id: Seq<char>,
    pub session_id: Option<Seq<char>>,
    pub control_mode: LedgerControlMode,
    pub revision: i64,
    pub as_of_ts: i64,
    pub expires_at: i64,
    pub underlying_price: u64,
    pub status: LedgerDecisionStatus,
    pub model: Seq<char>,
    pub prompt_version: Seq<char>,
    pub input_tokens: u64,
    pub cached_input_tokens: u64,
    pub cache_write_tokens: u64,
    pub output_tokens: u64,
    pub reasoning_tokens: u64,
    pub latency_ms: u64,
    pub input_hash: Option<Seq<char>>,
    pub chart_hash: Option<Seq<char>>,
    pub market_regime: Option<LedgerMarketRegime>,
    pub decision_summary_ko: Option<Seq<char>>,
    pub error: Option<Seq<char>>,
    pub created_at: i64,
}

impl View for NewDecision {
    type V = DecisionSeed;

    open spec fn view(&self) -> DecisionSeed {
        DecisionSeed {
            decision_id: self.decision_id@,
            session_id: opt(self.session_id),
            control_mode: self.control_mode,
            revision: self.revision,
            as_of_ts: self.as_of_ts,
            expires_at: self.expires_at,
            underlying_price: self.underlying_price,
            status: self.status,
            model: self.model@,
            prompt_version: self.prompt_version@,
            input_tokens: self.input_tokens,
            cached_input_tokens: self.cached_input_tokens,
            cache_write_tokens: self.cache_write_tokens,
            output_tokens: self.output_tokens,
            reasoning_tokens: self.reasoning_tokens,
            latency_ms: self.latency_ms,
            input_hash: opt(self.input_hash),
            chart_hash: opt(self.chart_hash),
            market_regime: self.market_regime,
            decision_summary_ko: opt(self.decision_summary_ko),
            error: opt(self.error),
            created_at: self.created_at,
        }
    }
}

impl Clone for NewDecision {
    fn clone(&self) -> (copy: Self)
        ensures
            copy == *self,
    {
        NewDecision {
            decision_id: self.decision_id.clone(),
            session_id: copy_text(&self.session_id),
            control_mode: self.control_mode,
            revision: self.revision,
            as_of_ts: self.as_of_ts,
            expires_at: self.expires_at,
            underlying_price: self.underlying_price,
            status: self.status,
            model: self.model.clone(),
            prompt_version: self.prompt_version.clone(),
            input_tokens: self.input_tokens,
            cached_input_tokens: self.cached_input_tokens,
            cache_write_tokens: self.cache_write_tokens,
            output_tokens: self.output_tokens,
            reasoning_tokens: self.reasoning_tokens,
            latency_ms: self.latency_ms,
            input_hash: copy_text(&self.input_hash),
            chart_hash: copy_text(&self.chart_hash),
            market_regime: self.market_regime,
            decision_summary_ko: copy_text(&self.decision_summary_ko),
            error: copy_text(&self.error),
            created_at: self.created_at,
        }
    }
}

/// A decision of the book.
#[derive(Debug, PartialEq, Eq)]
pub struct StoredDecision {
    pub id: i64,
    pub decision: NewDecision,
}

#[verifier::ext_equal]
pub struct DecisionView {
    pub id: i64,
    pub decision: DecisionSeed,
}

impl View for StoredDecision {
    type V = DecisionView;

    open spec fn view(&self) -> DecisionView {
        DecisionView {
            id: self.id,
            decision: self.decision@,
        }
    }
}

impl Clone for StoredDecision {
    fn clone(&self) -> (copy: Self)
        ensures
            copy == *self,
    {
        StoredDecision {
            id: self.id,
            decision: self.decision.clone(),
        }
    }
}

/// A scenario of a decision.
#[derive(Debug, PartialEq, Eq)]
pub struct NewDecisionScenario {
    pub product: LedgerProductKind,
    pub setup_type: Option<LedgerSetupType>,
    pub reference_price: Option<u64>,
    pub confirmation_price: Option<u64>,
    pub invalidation_price: Option<u64>,
    pub trigger_price: u64,
    /// In billionths of a percent.
    pub target_return_pct: i64,
    pub rationale_ko: Option<String>,
    pub status: LedgerScenarioStatus,
    pub reference_observed_at: Option<i64>,
    pub terminal_reason: Option<String>,
}

#[verifier::ext_equal]
pub struct ScenarioSeedView {
    pub product: LedgerProductKind,
    pub setup_type: Option<LedgerSetupType>,
    pub reference_price: Option<u64>,
    pub confirmation_price: Option<u64>,
    pub invalidation_price: Option<u64>,
    pub trigger_price: u64,
    pub target_return_pct: i64,
    pub rationale_ko: Option<Seq<char>>,
    pub status: LedgerScenarioStatus,
    pub reference_observed_at: Option<i64>,
    pub terminal_reason: Option<Seq<char>>,
}

impl View for NewDecisionScenario {
    type V = ScenarioSeedView;

    open spec fn view(&self) -> ScenarioSeedView {
        ScenarioSeedView {
            product: self.product,
            setup_type: self.setup_type,
            reference_price: self.reference_price,
            confirmation_price: self.confirmation_price,
            invalidation_price: self.invalidation_price,
            trigger_price: self.trigger_price,
            target_return_pct: self.target_return_pct,
            rationale_ko: opt(self.rationale_ko),
            status: self.status,
            reference_observed_at: self.reference_observed_at,
            terminal_reason: opt(self.terminal_reason),
        }
    }
}

impl Clone for NewDecisionScenario {
    fn clone(&self) -> (copy: Self)
        ensures
            copy == *self,
    {
        NewDecisionScenario {
            product: self.product,
            setup_type: self.setup_type,
            reference_price: self.reference_price,
            confirmation_price: self.confirmation_price,
            invalidation_price: self.invalidation_price,
            trigger_price: self.trigger_price,
            target_return_pct: self.target_return_pct,
            rationale_ko: copy_text(&self.rationale_ko),
            status: self.status,
            reference_observed_at: self.reference_observed_at,
            terminal_reason: copy_text(&self.terminal_reason),
        }
    }
}

/// A scenario of the book.
#[derive(Debug, PartialEq, Eq)]
pub struct ScenarioRecord {
    pub id: i64,
    pub decision_id: String,
    pub product: LedgerProductKind,
    pub setup_type: Option<LedgerSetupType>,
    pub reference_price: Option<u64>,
    pub confirmation_price: Option<u64>,
    pub invalidation_price: Option<u64>,
    pub trigger_price: u64,
    /// In billionths of a percent.
    pub target_return_pct: i64,
    pub rationale_ko: Option<String>,
    pub status: LedgerScenarioStatus,
    pub reference_observed_at: Option<i64>,
    pub terminal_reason: Option<String>,
    pub confirmation_started_at: Option<i64>,
    pub confirmation_tick_count: u32,
    pub updated_at: i64,
}

#[verifier::ext_equal]
pub struct ScenarioView {
    pub id: i64,
    pub decision_id: Seq<char>,
    pub product: LedgerProductKind,
    pub setup_type: Option<LedgerSetupType>,
    pub reference_price: Option<u64>,
    pub confirmation_price: Option<u64>,
    pub invalidation_price: Option<u64>,
    pub trigger_price: u64,
    pub target_return_pct: i64,
    pub rationale_ko: Option<Seq<char>>,
    pub status: LedgerScenarioStatus,
    pub reference_observed_at: Option<i64>,
    pub terminal_reason: Option<Seq<char>>,
    pub confirmation_started_at: Option<i64>,
    pub confirmation_tick_count: u32,
    pub updated_at: i64,
}

impl View for ScenarioRecord {
    type V = ScenarioView;

    open spec fn view(&self) -> ScenarioView {
        ScenarioView {
            id: self.id,
            decision_id: self.decision_id@,
            product: self.product,
            setup_type: self.setup_type,
            reference_price: self.reference_price,
            confirmation_price: self.confirmation_price,
            invalidation_price: self.invalidation_price,
            trigger_price: self.trigger_price,
            target_return_pct: self.target_return_pct,
            rationale_ko: opt(self.rationale_ko),
            status: self.status,
            reference_observed_at: self.reference_observed_at,
            terminal_reason: opt(self.terminal_reason),
            confirmation_started_at: self.confirmation_started_at,
            confirmation_tick_count: self.confirmation_tick_count,
            updated_at: self.updated_at,
        }
    }
}

impl Clone for ScenarioRecord {
    fn clone(&self) -> (copy: Self)
        ensures
            copy == *self,
    {
        ScenarioRecord {
            id: self.id,
            decision_id: self.decision_id.clone(),
            product: self.product,
            setup_type: self.setup_type,
            reference_price: self.reference_price,
            confirmation_price: self.confirmation_price,
            invalidation_price: self.invalidation_price,
            trigger_price: self.trigger_price,
            target_return_pct: self.target_return_pct,
            rationale_ko: copy_text(&self.rationale_ko),
            status: self.status,
            reference_observed_at: self.reference_observed_at,
            terminal_reason: copy_text(&self.terminal_reason),
            confirmation_started_at: self.confirmation_started_at,
            confirmation_tick_count: self.confirmation_tick_count,
            updated_at: self.updated_at,
        }
    }
}

/// An order that is about to be sent.
#[derive(Debug, PartialEq, Eq)]
pub struct NewOrderIntent {
    pub intent_id: String,
    pub session_id: Option<String>,
    pub trade_id: Option<String>,
    pub decision_id: Option<String>,
    pub scenario_product: Option<LedgerProductKind>,
    pub execution_kind: LedgerExecutionKind,
    pub origin: LedgerOrigin,
    pub code: String,
    pub side: LedgerSide,
    pub order_type: LedgerOrderType,
    pub qty: u64,
    pub price: Option<u64>,
    pub requested_at: i64,
}

#[verifier::ext_equal]
pub struct IntentView {
    pub intent_id: Seq<char>,
    pub session_id: Option<Seq<char>>,
    pub trade_id: Option<Seq<char>>,
    pub decision_id: Option<Seq<char>>,
    pub scenario_product: Option<LedgerProductKind>,
    pub execution_kind: LedgerExecutionKind,
    pub origin: LedgerOrigin,
    pub code: Seq<char>,
    pub side: LedgerSide,
    pub order_type: LedgerOrderType,
    pub qty: u64,
    pub price: Option<u64>,
    pub requested_at: i64,
}

impl View for NewOrderIntent {
    type V = IntentView;

    open spec fn view(&self) -> IntentView {
        IntentView {
            intent_id: self.intent_id@,
            session_id: opt(self.session_id),
            trade_id: opt(self.trade_id),
            decision_id: opt(self.decision_id),
            scenario_product: self.scenario_product,
            execution_kind: self.execution_kind,
            origin: self.origin,
            code: self.code@,
            side: self.side,
            order_type: self.order_type,
            qty: self.qty,
            price: self.price,
            requested_at: self.requested_at,
        }
    }
}

/// The broker's reply to an order.
#[derive(Debug, PartialEq, Eq)]
pub struct OrderAcknowledgement {
    pub broker_order_id: Option<String>,
    pub broker_org_no: Option<String>,
    pub original_order_id: Option<String>,
    pub status: LedgerOrderStatus,
    pub message: Option<String>,
    pub acknowledged_at: i64,
}

#[verifier::ext_equal]
pub struct AckView {
    pub broker_order_id: Option<Seq<char>>,
    pub broker_org_no: Option<Seq<char>>,
    pub original_order_id: Option<Seq<char>>,
    pub status: LedgerOrderStatus,
    pub message: Option<Seq<char>>,
    pub acknowledged_at: i64,
}

impl View for OrderAcknowledgement {
    type V = AckView;

    open spec fn view(&self) -> AckView {
        AckView {
            broker_order_id: opt(self.broker_order_id),
            broker_org_no: opt(self.broker_org_no),
            original_order_id: opt(self.original_order_id),
            status: self.status,
            message: opt(self.message),
            acknowledged_at: self.acknowledged_at,
        }
    }
}

/// An order of the book.
#[derive(Debug, PartialEq, Eq)]
pub struct OrderRecord {
    pub id: i64,
    pub intent_id: String,
    pub session_id: Option<String>,
    pub trade_id: Option<String>,
    pub decision_id: Option<String>,
    pub scenario_product: Option<LedgerProductKind>,
    pub broker_order_id: Option<String>,
    pub broker_org_no: Option<String>,
    pub original_order_id: Option<String>,
    pub trading_date: String,
    pub execution_kind: LedgerExecutionKind,
    pub origin: LedgerOrigin,
    pub code: String,
    pub side: LedgerSide,
    pub order_type: LedgerOrderType,
    pub qty: u64,
    pub price: Option<u64>,
    pub status: LedgerOrderStatus,
    pub message: Option<String>,
    pub requested_at: i64,
    pub acknowledged_at: Option<i64>,
    pub updated_at: i64,
}

#[verifier::ext_equal]
pub struct OrderView {
    pub id: i64,
    pub intent_id: Seq<char>,
    pub session_id: Option<Seq<char>>,
    pub trade_id: Option<Seq<char>>,
    pub decision_id: Option<Seq<char>>,
    pub scenario_product: Option<LedgerProductKind>,
    pub broker_order_id: Option<Seq<char>>,
    pub broker_org_no: Option<Seq<char>>,
    pub original_order_id: Option<Seq<char>>,
    pub trading_date: Seq<char>,
    pub execution_kind: LedgerExecutionKind,
    pub origin: LedgerOrigin,
    pub code: Seq<char>,
    pub side: LedgerSide,
    pub order_type: LedgerOrderType,
    pub qty: u64,
    pub price: Option<u64>,
    pub status: LedgerOrderStatus,
    pub message: Option<Seq<char>>,
    pub requested_at: i64,
    pub acknowledged_at: Option<i64>,
    pub updated_at: i64,
}

impl View for OrderRecord {
    type V = OrderView;

    open spec fn view(&self) -> OrderView {
        OrderView {
            id: self.id,
            intent_id: self.intent_id@,
            session_id: opt(self.session_id),
            trade_id: opt(self.trade_id),
            decision_id: opt(self.decision_id),
            scenario_product: self.scenario_product,
            broker_order_id: opt(self.broker_order_id),
            broker_org_no: opt(self.broker_org_no),
            original_order_id: opt(self.original_order_id),
            trading_date: self.trading_date@,
            execution_kind: self.execution_kind,
            origin: self.origin,
            code: self.code@,
            side: self.side,
            order_type: self.order_type,
            qty: self.qty,
            price: self.price,
            status: self.status,
            message: opt(self.message),
            requested_at: self.requested_at,
            acknowledged_at: self.acknowledged_at,
            updated_at: self.updated_at,
        }
    }
}

impl Clone for OrderRecord {
    fn clone(&self) -> (copy: Self)
        ensures
            copy == *self,
    {
        OrderRecord {
            id: self.id,
            intent_id: self.intent_id.clone(),
            session_id: copy_text(&self.session_id),
            trade_id: copy_text(&self.trade_id),
            decision_id: copy_text(&self.decision_id),
            scenario_product: self.scenario_product,
            broker_order_id: copy_text(&self.broker_order_id),
            broker_org_no: copy_text(&self.broker_org_no),
            original_order_id: copy_text(&self.original_order_id),
            trading_date: self.trading_date.clone(),
            execution_kind: self.execution_kind,
            origin: self.origin,
            code: self.code.clone(),
            side: self.side,
            order_type: self.order_type,
            qty: self.qty,
            price: self.price,
            status: self.status,
            message: copy_text(&self.message),
            requested_at: self.requested_at,
            acknowledged_at: self.acknowledged_at,
            updated_at: self.updated_at,
        }
    }
}

/// A fill.
#[derive(Debug, PartialEq, Eq)]
pub struct NewFill {
    /// A key that the broker's lists and its notices both give.
    pub fill_key: String,
    pub intent_id: Option<String>,
    pub broker_order_id: Option<String>,
    pub broker_fill_id: Option<String>,
    pub execution_kind: LedgerExecutionKind,
    pub origin: LedgerOrigin,
    pub code: String,
    pub side: LedgerSide,
    pub qty: u64,
    /// In ten-thousandths of a won.
    pub price: u64,
    pub filled_at: i64,
    pub raw_json: Option<String>,
}

#[verifier::ext_equal]
pub struct FillSeed {
    pub fill_key: Seq<char>,
    pub intent_id: Option<Seq<char>>,
    pub broker_order_id: Option<Seq<char>>,
    pub broker_fill_id: Option<Seq<char>>,
    pub execution_kind: LedgerExecutionKind,
    pub origin: LedgerOrigin,
    pub code: Seq<char>,
    pub side: LedgerSide,
    pub qty: u64,
    pub price: u64,
    pub filled_at: i64,
    pub raw_json: Option<Seq<char>>,
}

impl View for NewFill {
    type V = FillSeed;

    open spec fn view(&self) -> FillSeed {
        FillSeed {
            fill_key: self.fill_key@,
            intent_id: opt(self.intent_id),
            broker_order_id: opt(self.broker_order_id),
            broker_fill_id: opt(self.broker_fill_id),
            execution_kind: self.execution_kind,
            origin: self.origin,
            code: self.code@,
            side: self.side,
            qty: self.qty,
            price: self.price,
            filled_at: self.filled_at,
            raw_json: opt(self.raw_json),
        }
    }
}

impl Clone for NewFill {
    fn clone(&self) -> (copy: Self)
        ensures
            copy == *self,
    {
        NewFill {
            fill_key: self.fill_key.clone(),
            intent_id: copy_text(&self.intent_id),
            broker_order_id: copy_text(&self.broker_order_id),
            broker_fill_id: copy_text(&self.broker_fill_id),
            execution_kind: self.execution_kind,
            origin: self.origin,
            code: self.code.clone(),
            side: self.side,
            qty: self.qty,
            price: self.price,
            filled_at: self.filled_at,
            raw_json: copy_text(&self.raw_json),
        }
    }
}

/// A fill of the book, under the order that it belongs to.
#[derive(Debug, PartialEq, Eq)]
pub struct FillRecord {
    pub id: i64,
    pub trading_date: String,
    pub broker_org_no: String,
    pub order_no: String,
    pub fill: NewFill,
}

#[verifier::ext_equal]
pub struct FillView {
    pub id: i64,
    pub trading_date: Seq<char>,
    pub broker_org_no: Seq<char>,
    pub order_no: Seq<char>,
    pub fill: FillSeed,
}

impl View for FillRecord {
    type V = FillView;

    open spec fn view(&self) -> FillView {
        FillView {
            id: self.id,
            trading_date: self.trading_date@,
            broker_org_no: self.broker_org_no@,
            order_no: self.order_no@,
            fill: self.fill@,
        }
    }
}

impl Clone for FillRecord {
    fn clone(&self) -> (copy: Self)
        ensures
            copy == *self,
    {
        FillRecord {
            id: self.id,
            trading_date: self.trading_date.clone(),
            broker_org_no: self.broker_org_no.clone(),
            order_no: self.order_no.clone(),
            fill: self.fill.clone(),
        }
    }
}

/// A notice of a fill, kept apart from the fills themselves. Two notices of the same second, quantity
/// and price may be two fills, so each has an identity of its own.
#[derive(Debug, PartialEq, Eq)]
pub struct NewFillNotice {
    pub notice_id: String,
    pub source_notice_id: Option<String>,
    pub broker_order_id: String,
    pub broker_org_no: Option<String>,
    pub code: String,
    pub side: LedgerSide,
    pub qty: u64,
    /// In ten-thousandths of a won, where it is a number that is not negative.
    pub price: Option<u64>,
    pub notified_at: i64,
    pub received_at: i64,
    pub raw_json: Option<String>,
}

#[verifier::ext_equal]
pub struct NoticeSeed {
    pub notice_id: Seq<char>,
    pub source_notice_id: Option<Seq<char>>,
    pub broker_order_id: Seq<char>,
    pub broker_org_no: Option<Seq<char>>,
    pub code: Seq<char>,
    pub side: LedgerSide,
    pub qty: u64,
    pub price: Option<u64>,
    pub notified_at: i64,
    pub received_at: i64,
    pub raw_json: Option<Seq<char>>,
}

impl View for NewFillNotice {
    type V = NoticeSeed;

    open spec fn view(&self) -> NoticeSeed {
        NoticeSeed {
            notice_id: self.notice_id@,
            source_notice_id: opt(self.source_notice_id),
            broker_order_id: self.broker_order_id@,
            broker_org_no: opt(self.broker_org_no),
            code: self.code@,
            side: self.side,
            qty: self.qty,
            price: self.price,
            notified_at: self.notified_at,
            received_at: self.received_at,
            raw_json: opt(self.raw_json),
        }
    }
}

impl Clone for NewFillNotice {
    fn clone(&self) -> (copy: Self)
        ensures
            copy == *self,
    {
        NewFillNotice {
            notice_id: self.notice_id.clone(),
            source_notice_id: copy_text(&self.source_notice_id),
            broker_order_id: self.broker_order_id.clone(),
            broker_org_no: copy_text(&self.broker_org_no),
            code: self.code.clone(),
            side: self.side,
            qty: self.qty,
            price: self.price,
            notified_at: self.notified_at,
            received_at: self.received_at,
            raw_json: copy_text(&self.raw_json),
        }
    }
}

/// A notice of the book.
#[derive(Debug, PartialEq, Eq)]
pub struct NoticeRecord {
    pub id: i64,
    pub trading_date: String,
    pub notice: NewFillNotice,
}

#[verifier::ext_equal]
pub struct NoticeView {
    pub id: i64,
    pub trading_date: Seq<char>,
    pub notice: NoticeSeed,
}

impl View for NoticeRecord {
    type V = NoticeView;

    open spec fn view(&self) -> NoticeView {
        NoticeView {
            id: self.id,
            trading_date: self.trading_date@,
            notice: self.notice@,
        }
    }
}

impl Clone for NoticeRecord {
    fn clone(&self) -> (copy: Self)
        ensures
            copy == *self,
    {
        NoticeRecord {
            id: self.id,
            trading_date: self.trading_date.clone(),
            notice: self.notice.clone(),
        }
    }
}

/// A trade from entry to exit.
#[derive(Debug, PartialEq, Eq)]
pub struct NewTrade {
    pub trade_id: String,
    pub session_id: Option<String>,
    pub execution_kind: LedgerExecutionKind,
    pub origin: LedgerOrigin,
    pub code: String,
    pub entry_qty: u64,
    pub exit_qty: u64,
    /// In ten-thousandths of a won.
    pub entry_avg_price: u64,
    /// In ten-thousandths of a won.
    pub exit_avg_price: Option<u64>,
    /// Simple return in billionths of a percent, without fees and taxes.
    pub pnl_rate: Option<i64>,
    pub entered_at: i64,
    pub exited_at: Option<i64>,
    pub status: LedgerTradeStatus,
    pub exit_reason: Option<String>,
    pub updated_at: i64,
}

#[verifier::ext_equal]
pub struct TradeSeed {
    pub trade_id: Seq<char>,
    pub session_id: Option<Seq<char>>,
    pub execution_kind: LedgerExecutionKind,
    pub origin: LedgerOrigin,
    pub code: Seq<char>,
    pub entry_qty: u64,
    pub exit_qty: u64,
    pub entry_avg_price: u64,
    pub exit_avg_price: Option<u64>,
    pub pnl_rate: Option<i64>,
    pub entered_at: i64,
    pub exited_at: Option<i64>,
    pub status: LedgerTradeStatus,
    pub exit_reason: Option<Seq<char>>,
    pub updated_at: i64,
}

impl View for NewTrade {
    type V = TradeSeed;

    open spec fn view(&self) -> TradeSeed {
        TradeSeed {
            trade_id: self.trade_id@,
            session_id: opt(self.session_id),
            execution_kind: self.execution_kind,
            origin: self.origin,
            code: self.code@,
            entry_qty: self.entry_qty,
            exit_qty: self.exit_qty,
            entry_avg_price: self.entry_avg_price,
            exit_avg_price: self.exit_avg_price,
            pnl_rate: self.pnl_rate,
            entered_at: self.entered_at,
            exited_at: self.exited_at,
            status: self.status,
            exit_reason: opt(self.exit_reason),
            updated_at: self.updated_at,
        }
    }
}

/// A trade of the book.
#[derive(Debug, PartialEq, Eq)]
pub struct TradeRecord {
    pub id: i64,
    pub trade_id: String,
    pub session_id: Option<String>,
    pub execution_kind: LedgerExecutionKind,
    pub origin: LedgerOrigin,
    pub code: String,
    pub entry_qty: u64,
    pub exit_qty: u64,
    pub entry_avg_price: u64,
    pub exit_avg_price: Option<u64>,
    pub pnl_rate: Option<i64>,
    pub entered_at: i64,
    pub exited_at: Option<i64>,
    pub status: LedgerTradeStatus,
    pub exit_reason: Option<String>,
    pub updated_at: i64,
}

#[verifier::ext_equal]
pub struct TradeView {
    pub id: i64,
    pub trade_id: Seq<char>,
    pub session_id: Option<Seq<char>>,
    pub execution_kind: LedgerExecutionKind,
    pub origin: LedgerOrigin,
    pub code: Seq<char>,
    pub entry_qty: u64,
    pub exit_qty: u64,
    pub entry_avg_price: u64,
    pub exit_avg_price: Option<u64>,
    pub pnl_rate: Option<i64>,
    pub entered_at: i64,
    pub exited_at: Option<i64>,
    pub status: LedgerTradeStatus,
    pub exit_reason: Option<Seq<char>>,
    pub updated_at: i64,
}

impl View for TradeRecord {
    type V = TradeView;

    open spec fn view(&self) -> TradeView {
        TradeView {
            id: self.id,
            trade_id: self.trade_id@,
            session_id: opt(self.session_id),
            execution_kind: self.execution_kind,
            origin: self.origin,
            code: self.code@,
            entry_qty: self.entry_qty,
            exit_qty: self.exit_qty,
            entry_avg_price: self.entry_avg_price,
            exit_avg_price: self.exit_avg_price,
            pnl_rate: self.pnl_rate,
            entered_at: self.entered_at,
            exited_at: self.exited_at,
            status: self.status,
            exit_reason: opt(self.exit_reason),
            updated_at: self.updated_at,
        }
    }
}

impl Clone for TradeRecord {
    fn clone(&self) -> (copy: Self)
        ensures
            copy == *self,
    {
        TradeRecord {
            id: self.id,
            trade_id: self.trade_id.clone(),
            session_id: copy_text(&self.session_id),
            execution_kind: self.execution_kind,
            origin: self.origin,
            code: self.code.clone(),
            entry_qty: self.entry_qty,
            exit_qty: self.exit_qty,
            entry_avg_price: self.entry_avg_price,
            exit_avg_price: self.exit_avg_price,
            pnl_rate: self.pnl_rate,
            entered_at: self.entered_at,
            exited_at: self.exited_at,
            status: self.status,
            exit_reason: copy_text(&self.exit_reason),
            updated_at: self.updated_at,
        }
    }
}

/// A stored value.
#[derive(Debug, PartialEq, Eq)]
pub struct StateEntry {
    pub key: String,
    pub value_json: String,
    pub updated_at: i64,
}

#[verifier::ext_equal]
pub struct StateView {
    pub key: Seq<char>,
    pub value_json: Seq<char>,
    pub updated_at: i64,
}

impl View for StateEntry {
    type V = StateView;

    open spec fn view(&self) -> StateView {
        StateView {
            key: self.key@,
            value_json: self.value_json@,
            updated_at: self.updated_at,
        }
    }
}

/// A change of a scenario's state, applied together with its decision's.
#[derive(Debug, Clone, Copy)]
pub struct ScenarioStatusUpdate<'a> {
    pub product: LedgerProductKind,
    pub status: LedgerScenarioStatus,
    pub confirmation_started_at: Option<i64>,
    pub confirmation_tick_count: u32,
    pub updated_at: i64,
    pub terminal_reason: Option<&'a str>,
    pub reference_observed_at: Option<i64>,
}

#[verifier::ext_equal]
pub struct UpdateView {
    pub product: LedgerProductKind,
    pub status: LedgerScenarioStatus,
    pub confirmation_started_at: Option<i64>,
    pub confirmation_tick_count: u32,
    pub updated_at: i64,
    pub terminal_reason: Option<Seq<char>>,
    pub reference_observed_at: Option<i64>,
}

impl<'a> View for ScenarioStatusUpdate<'a> {
    type V = UpdateView;

    open spec fn view(&self) -> UpdateView {
        UpdateView {
            product: self.product,
            status: self.status,
            confirmation_started_at: self.confirmation_started_at,
            confirmation_tick_count: self.confirmation_tick_count,
            updated_at: self.updated_at,
            terminal_reason: match self.terminal_reason {
                Some(text) => Some(text@),
                None => None,
            },
            reference_observed_at: self.reference_observed_at,
        }
    }
}

/// A decision with its scenarios.
#[derive(Debug)]
pub struct DecisionRecord {
    pub id: i64,
    pub decision_id: String,
    pub session_id: Option<String>,
    pub control_mode: LedgerControlMode,
    pub revision: i64,
    pub as_of_ts: i64,
    pub expires_at: i64,
    /// In ten-thousandths of a won.
    pub underlying_price: u64,
    pub status: LedgerDecisionStatus,
    pub model: String,
    pub prompt_version: String,
    pub input_tokens: u64,
    pub cached_input_tokens: u64,
    pub cache_write_tokens: u64,
    pub output_tokens: u64,
    pub reasoning_tokens: u64,
    pub latency_ms: u64,
    pub input_hash: Option<String>,
    pub chart_hash: Option<String>,
    pub market_regime: Option<LedgerMarketRegime>,
    pub decision_summary_ko: Option<String>,
    pub error: Option<String>,
    pub created_at: i64,
    pub scenarios: Vec<ScenarioRecord>,
}

#[verifier::ext_equal]
pub struct FullDecisionView {
    pub row: DecisionView,
    pub scenarios: Seq<ScenarioView>,
}

impl View for DecisionRecord {
    type V = FullDecisionView;

    open spec fn view(&self) -> FullDecisionView {
        FullDecisionView {
            row: DecisionView {
                id: self.id,
                decision: DecisionSeed {
                    decision_id: self.decision_id@,
                    session_id: opt(self.session_id),
                    control_mode: self.control_mode,
                    revision: self.revision,
                    as_of_ts: self.as_of_ts,
                    expires_at: self.expires_at,
                    underlying_price: self.underlying_price,
                    status: self.status,
                    model: self.model@,
                    prompt_version: self.prompt_version@,
                    input_tokens: self.input_tokens,
                    cached_input_tokens: self.cached_input_tokens,
                    cache_write_tokens: self.cache_write_tokens,
                    output_tokens: self.output_tokens,
                    reasoning_tokens: self.reasoning_tokens,
                    latency_ms: self.latency_ms,
                    input_hash: opt(self.input_hash),
                    chart_hash: opt(self.chart_hash),
                    market_regime: self.market_regime,
                    decision_summary_ko: opt(self.decision_summary_ko),
                    error: opt(self.error),
                    created_at: self.created_at,
                },
            },
            scenarios: rows(self.scenarios@),
        }
    }
}

/// Which decisions to list.
#[derive(Debug, Clone, Copy, PartialEq, Eq, Structural)]
pub struct DecisionQuery {
    pub control_mode: Option<LedgerControlMode>,
    pub status: Option<LedgerDecisionStatus>,
}

impl Default for DecisionQuery {
    fn default() -> (query: Self)
        ensures
            query.control_mode is None,
            query.status is None,
    {
        DecisionQuery { control_mode: None, status: None }
    }
}

/// Which trades to list.
#[derive(Debug, Clone, Copy, PartialEq, Eq, Structural)]
pub struct TradeQuery {
    pub execution_kind: Option<LedgerExecutionKind>,
    pub origin: Option<LedgerOrigin>,
    pub status: Option<LedgerTradeStatus>,
}

impl Default for TradeQuery {
    fn default() -> (query: Self)
        ensures
            query.execution_kind is None,
            query.origin is None,
            query.status is None,
    {
        TradeQuery { execution_kind: None, origin: None, status: None }
    }
}

/// One page of a list.
#[derive(Debug)]
pub struct CursorPage<T> {
    pub items: Vec<T>,
    /// Where the next page begins.
    pub next_cursor: Option<i64>,
}

impl Keyed for SessionRecord {
    open spec fn key_of(row: SessionView) -> Seq<char> {
        row.session.session_id
    }

    fn key(&self) -> (key: &str) {
        self.session.session_id.as_str()
    }
}

impl Keyed for StoredDecision {
    open spec fn key_of(row: DecisionView) -> Seq<char> {
        row.decision.decision_id
    }

    fn key(&self) -> (key: &str) {
        self.decision.decision_id.as_str()
    }
}

impl Keyed for OrderRecord {
    open spec fn key_of(row: OrderView) -> Seq<char> {
        row.intent_id
    }

    fn key(&self) -> (key: &str) {
        self.intent_id.as_str()
    }
}

impl Keyed for NoticeRecord {
    open spec fn key_of(row: NoticeView) -> Seq<char> {
        row.notice.notice_id
    }

    fn key(&self) -> (key: &str) {
        self.notice.notice_id.as_str()
    }
}

impl Keyed for TradeRecord {
    open spec fn key_of(row: TradeView) -> Seq<char> {
        row.trade_id
    }

    fn key(&self) -> (key: &str) {
        self.trade_id.as_str()
    }
}

impl Keyed for StateEntry {
    open spec fn key_of(row: StateView) -> Seq<char> {
        row.key
    }

    fn key(&self) -> (key: &str) {
        self.key.as_str()
    }
}

} // verus!
