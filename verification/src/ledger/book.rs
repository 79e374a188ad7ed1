//! The book itself: its tables, and what each entry does to them.

use vstd::prelude::*;

use crate::clock::written_date;
use crate::json::{lemma_object_says, names_twice, read_json, write_json, Json};
use crate::ledger::checks::{
    checked, day_fault, first_fault, id_fault, normalize_limit, not_found, page_size,
    optional_u64_to_i64, trading_date_from_fake_epoch, u64_to_i64, validate_day, validate_id,
    validate_scenarios, BrokerOrderKey, KeyView, LedgerError, LedgerFault, LedgerResult,
};
use crate::ledger::kinds::{
    LedgerControlMode, LedgerDecisionStatus, LedgerExecutionKind, LedgerOrderStatus, LedgerOrigin,
    LedgerScenarioStatus, LedgerSessionStatus, LedgerSide, LedgerTradeStatus,
};
use crate::ledger::model::{
    before_cursor, by_request, coalesced, dangling, filled_org, full, lemma_decided,
    lemma_restarted, lemma_updated, newest, numbered, of_decision, of_order, only_spaces,
    mode_of, open_order, open_orders_of, order_org, same_fill, shorter, stored_mode,
    stored_value_reads_back, taken, text_or_empty, wanted_decision, wanted_trade, Ids, LedgerView,
    CONTROL_MODE_KEY, SCHEMA_VERSION,
};
use crate::ledger::records::{
    CursorPage, DecisionQuery, DecisionRecord, DecisionView, FillRecord, NewDecision,
    NewDecisionScenario, NewFill, NewFillNotice, NewOrderIntent, NewSession, NewTrade, NoticeRecord,
    OrderAcknowledgement, OrderRecord, OrderView, ScenarioRecord, ScenarioStatusUpdate,
    SessionRecord, StateEntry, StoredDecision, TradeQuery, TradeRecord, TradeView,
};
use crate::seqs::{filter_mapped, first_where, lemma_filter_mapped_step, lemma_first_where};
use crate::tables::{
    find, holds, keys_differ, lemma_unique_push, lemma_unique_same, lemma_unique_update, place,
    rows,
};
use crate::text::{
    blank, chars_of, copy_text, in_order, insert_in_order, is_blank, is_text, joined, opt, same,
    views,
};

verus! {

fn room(next: i64) -> (result: LedgerResult<()>)
    ensures
        checked(result, full(next as int)),
{
    if next >= i64::MAX {
        Err(LedgerError::Sql("database or disk is full".to_owned()))
    } else {
        Ok(())
    }
}

fn refers(found: bool) -> (result: LedgerResult<()>)
    ensures
        checked(result, dangling(found)),
{
    if found {
        Ok(())
    } else {
        Err(LedgerError::Sql("FOREIGN KEY constraint failed".to_owned()))
    }
}

fn is_new(found: bool, column: &str) -> (result: LedgerResult<()>)
    ensures
        checked(result, taken(found, column@)),
{
    if found {
        Err(LedgerError::Sql(joined("UNIQUE constraint failed: ", column)))
    } else {
        Ok(())
    }
}

fn coalesce(a: &Option<String>, b: &Option<String>) -> (text: Option<String>)
    ensures
        opt(text) == coalesced(opt(*a), opt(*b)),
{
    match a {
        Some(a) => Some(a.clone()),
        None => copy_text(b),
    }
}

/// The book.
#[derive(Debug)]
pub struct Ledger {
    sessions: Vec<SessionRecord>,
    decisions: Vec<StoredDecision>,
    scenarios: Vec<ScenarioRecord>,
    orders: Vec<OrderRecord>,
    fills: Vec<FillRecord>,
    notices: Vec<NoticeRecord>,
    trades: Vec<TradeRecord>,
    state: Vec<StateEntry>,
    ids: Ids,
}

impl View for Ledger {
    type V = LedgerView;

    closed spec fn view(&self) -> LedgerView {
        LedgerView {
            sessions: rows(self.sessions@),
            decisions: rows(self.decisions@),
            scenarios: rows(self.scenarios@),
            orders: rows(self.orders@),
            fills: rows(self.fills@),
            notices: rows(self.notices@),
            trades: rows(self.trades@),
            state: rows(self.state@),
            ids: self.ids,
        }
    }
}

/// The outcome of an entry: refused with the fault and nothing changed, or the book that it makes.
pub open spec fn entered<T>(
    result: Result<T, LedgerError>,
    fault: Option<LedgerFault>,
    before: LedgerView,
    after: LedgerView,
    made: LedgerView,
) -> bool {
    match result {
        Ok(_) => fault is None && after == made,
        Err(error) => fault == Some(error@) && after == before,
    }
}

impl Ledger {
    /// A book with nothing in it.
    pub fn open_in_memory() -> (ledger: Self)
        ensures
            ledger@ == LedgerView::empty(),
            ledger@.wf(),
    {
        let ledger = Ledger {
            sessions: Vec::new(),
            decisions: Vec::new(),
            scenarios: Vec::new(),
            orders: Vec::new(),
            fills: Vec::new(),
            notices: Vec::new(),
            trades: Vec::new(),
            state: Vec::new(),
            ids: Ids {
                session: 1,
                decision: 1,
                scenario: 1,
                order: 1,
                fill: 1,
                notice: 1,
                trade: 1,
            },
        };
        assert(ledger@ =~= LedgerView::empty());
        ledger
    }

    pub fn schema_version(&self) -> (version: i64)
        ensures
            version == 5,
    {
        SCHEMA_VERSION
    }

    pub fn start_session(&mut self, session: &NewSession) -> (result: LedgerResult<()>)
        requires
            old(self)@.wf(),
        ensures
            entered(
                result,
                old(self)@.start_fault(session@),
                old(self)@,
                final(self)@,
                old(self)@.started(session@),
            ),
            final(self)@.wf(),
    {
        if let Err(error) = validate_id("session_id", session.session_id.as_str()) {
            return Err(error);
        }
        if let Err(error) = optional_u64_to_i64(session.starting_cash, "starting_cash") {
            return Err(error);
        }
        if let Err(error) = room(self.ids.session) {
            return Err(error);
        }
        let found = find(&self.sessions, session.session_id.as_str()).is_some();
        if let Err(error) = is_new(found, "sessions.session_id") {
            return Err(error);
        }
        let ghost before = self@;
        self.sessions.push(
            SessionRecord {
                id: self.ids.session,
                session: session.clone(),
                status: LedgerSessionStatus::Active,
                ended_at: None,
            },
        );
        self.ids.session = self.ids.session + 1;
        proof {
            assert(self@ =~= before.started(session@));
            lemma_unique_push::<SessionRecord>(before.sessions, self@.sessions.last());
        }
        Ok(())
    }

    pub fn end_session(
        &mut self,
        session_id: &str,
        status: LedgerSessionStatus,
        ended_at: i64,
    ) -> (result: LedgerResult<()>)
        requires
            old(self)@.wf(),
        ensures
            entered(
                result,
                old(self)@.end_fault(session_id@, status),
                old(self)@,
                final(self)@,
                old(self)@.ended(session_id@, status, ended_at),
            ),
            final(self)@.wf(),
    {
        if status == LedgerSessionStatus::Active {
            return Err(
                LedgerError::InvalidInput(
                    "세션 종료 상태로 active를 사용할 수 없습니다".to_owned(),
                ),
            );
        }
        let ghost before = self@;
        match find(&self.sessions, session_id) {
            None => Err(not_found("session", session_id)),
            Some(i) => {
                let mut row = self.sessions[i].clone();
                row.status = status;
                row.ended_at = Some(ended_at);
                self.sessions.set(i, row);
                proof {
                    assert(self@ =~= before.ended(session_id@, status, ended_at));
                    lemma_unique_update::<SessionRecord>(
                        before.sessions,
                        i as int,
                        self@.sessions[i as int],
                    );
                }
                Ok(())
            },
        }
    }
}

impl Ledger {
    /// Stores a value under a key, in place of the one before it.
    pub fn set_runtime_state(&mut self, key: &str, value_json: &str, updated_at: i64) -> (result:
        LedgerResult<()>)
        requires
            old(self)@.wf(),
        ensures
            entered(
                result,
                LedgerView::state_fault(key@),
                old(self)@,
                final(self)@,
                old(self)@.stored(key@, value_json@, updated_at),
            ),
            final(self)@.wf(),
    {
        if is_blank(key) {
            return Err(
                LedgerError::InvalidInput("runtime_state 키는 비어 있을 수 없습니다".to_owned()),
            );
        }
        let ghost before = self@;
        let entry = StateEntry {
            key: key.to_owned(),
            value_json: value_json.to_owned(),
            updated_at,
        };
        match find(&self.state, key) {
            Some(i) => {
                self.state.set(i, entry);
                proof {
                    assert(self@ =~= before.stored(key@, value_json@, updated_at));
                    lemma_unique_update::<StateEntry>(before.state, i as int, entry@);
                }
            },
            None => {
                self.state.push(entry);
                proof {
                    assert(self@ =~= before.stored(key@, value_json@, updated_at));
                    lemma_unique_push::<StateEntry>(before.state, entry@);
                }
            },
        }
        Ok(())
    }

    /// The value stored under a key.
    pub fn get_runtime_state(&self, key: &str) -> (value: Option<&str>)
        ensures
            match value {
                Some(json) => self@.state_value(key@) == Some(json@),
                None => self@.state_value(key@) is None,
            },
    {
        match find(&self.state, key) {
            Some(i) => Some(self.state[i].value_json.as_str()),
            None => None,
        }
    }

    pub fn delete_runtime_state(&mut self, key: &str) -> (result: LedgerResult<()>)
        requires
            old(self)@.wf(),
        ensures
            entered(
                result,
                LedgerView::state_fault(key@),
                old(self)@,
                final(self)@,
                old(self)@.removed(key@),
            ),
            final(self)@.wf(),
    {
        if is_blank(key) {
            return Err(
                LedgerError::InvalidInput("runtime_state 키는 비어 있을 수 없습니다".to_owned()),
            );
        }
        let ghost before = self@;
        match find(&self.state, key) {
            Some(i) => {
                self.state.remove(i);
                assert(self@ =~= before.removed(key@));
            },
            None => {
                assert(self@ =~= before.removed(key@));
            },
        }
        Ok(())
    }

    /// Resets what cannot be restored to manual control, and keeps what was recorded: active
    /// sessions and their open trades are marked as interrupted, and every stored value goes.
    pub fn reset_runtime_state_to_manual(&mut self, reset_at: i64)
        requires
            old(self)@.wf(),
        ensures
            final(self)@.state.len() == 1,
            final(self)@ == old(self)@.reset(reset_at, final(self)@.state[0].value_json),
            stored_mode(final(self)@.state[0].value_json) == Some(LedgerControlMode::Manual),
            final(self)@.wf(),
    {
        let ghost before = self@;
        let mode_json = mode_text(LedgerControlMode::Manual);
        let mut trades: Vec<TradeRecord> = Vec::new();
        let mut i: usize = 0;
        while i < self.trades.len()
            invariant
                before == self@,
                i <= self.trades@.len(),
                trades@.len() == i,
                forall|k: int|
                    0 <= k < i ==> (#[trigger] trades@[k])@ == before.reset_trade(
                        before.trades[k],
                        reset_at,
                    ),
            decreases self.trades@.len() - i,
        {
            let mut trade = self.trades[i].clone();
            let ghost view = trade@;
            assert(view == before.trades[i as int]);
            if trade.status == LedgerTradeStatus::Open && self.is_in_active_session(&trade) {
                trade.status = LedgerTradeStatus::Interrupted;
                let reason = coalesce(&trade.exit_reason, &Some("runtime_reset".to_owned()));
                trade.exit_reason = reason;
                trade.updated_at = reset_at;
            }
            assert(trade@ =~= before.reset_trade(view, reset_at));
            trades.push(trade);
            i += 1;
        }
        let mut sessions: Vec<SessionRecord> = Vec::new();
        let mut j: usize = 0;
        while j < self.sessions.len()
            invariant
                before == self@,
                j <= self.sessions@.len(),
                sessions@.len() == j,
                forall|k: int|
                    0 <= k < j ==> (#[trigger] sessions@[k])@ == LedgerView::reset_session(
                        before.sessions[k],
                        reset_at,
                    ),
            decreases self.sessions@.len() - j,
        {
            let mut session = self.sessions[j].clone();
            assert(session@ == before.sessions[j as int]);
            if session.status == LedgerSessionStatus::Active {
                session.status = LedgerSessionStatus::Interrupted;
                session.ended_at = Some(reset_at);
            }
            sessions.push(session);
            j += 1;
        }
        let mut state: Vec<StateEntry> = Vec::new();
        let ghost json = mode_json@;
        state.push(
            StateEntry {
                key: CONTROL_MODE_KEY.to_owned(),
                value_json: mode_json,
                updated_at: reset_at,
            },
        );
        self.trades = trades;
        self.sessions = sessions;
        self.state = state;
        proof {
            let made = before.reset(reset_at, json);
            assert(self@.trades =~= made.trades);
            assert(self@.sessions =~= made.sessions);
            assert(self@.state =~= made.state);
            assert(self@ =~= made);
            lemma_unique_same::<TradeRecord>(before.trades, made.trades);
            lemma_unique_same::<SessionRecord>(before.sessions, made.sessions);
        }
    }

    fn is_in_active_session(&self, trade: &TradeRecord) -> (yes: bool)
        ensures
            yes == self@.in_active_session(trade@),
    {
        match &trade.session_id {
            Some(session_id) => match find(&self.sessions, session_id.as_str()) {
                Some(i) => self.sessions[i].status == LedgerSessionStatus::Active,
                None => false,
            },
            None => false,
        }
    }

    pub fn set_control_mode(&mut self, mode: LedgerControlMode, updated_at: i64) -> (result:
        LedgerResult<()>)
        requires
            old(self)@.wf(),
        ensures
            result is Ok,
            final(self)@.state_value(CONTROL_MODE_KEY@) is Some,
            final(self)@ == old(self)@.stored(
                CONTROL_MODE_KEY@,
                final(self)@.state_value(CONTROL_MODE_KEY@)->0,
                updated_at,
            ),
            stored_mode(final(self)@.state_value(CONTROL_MODE_KEY@)->0) == Some(mode),
            final(self)@.wf(),
    {
        let json = mode_text(mode);
        let ghost before = self@;
        proof {
            reveal_strlit("control_mode");
            assert(!blank(CONTROL_MODE_KEY@)) by {
                assert(CONTROL_MODE_KEY@[0] == 'c');
            }
            stored_value_reads_back(before, CONTROL_MODE_KEY@, json@, updated_at);
        }
        self.set_runtime_state(CONTROL_MODE_KEY, json.as_str(), updated_at)
    }

    /// The control mode that is stored. A text that stands for none is an error, which holds the text.
    pub fn control_mode(&self) -> (mode: LedgerResult<Option<LedgerControlMode>>)
        ensures
            match self@.state_value(CONTROL_MODE_KEY@) {
                None => mode == Ok::<Option<LedgerControlMode>, LedgerError>(None),
                Some(json) => match stored_mode(json) {
                    Some(found) => mode == Ok::<Option<LedgerControlMode>, LedgerError>(
                        Some(found),
                    ),
                    None => mode matches Err(LedgerError::Json(text)) && text@ == json,
                },
            },
    {
        match self.get_runtime_state(CONTROL_MODE_KEY) {
            None => Ok(None),
            Some(json) => match read_mode(json) {
                Some(mode) => Ok(Some(mode)),
                None => Err(LedgerError::Json(json.to_owned())),
            },
        }
    }

    pub fn get_control_mode(&self) -> (mode: LedgerResult<Option<LedgerControlMode>>)
        ensures
            match self@.state_value(CONTROL_MODE_KEY@) {
                None => mode == Ok::<Option<LedgerControlMode>, LedgerError>(None),
                Some(json) => match stored_mode(json) {
                    Some(found) => mode == Ok::<Option<LedgerControlMode>, LedgerError>(
                        Some(found),
                    ),
                    None => mode matches Err(LedgerError::Json(text)) && text@ == json,
                },
            },
    {
        self.control_mode()
    }
}

/// A control mode as it is stored.
pub fn mode_text(mode: LedgerControlMode) -> (json: String)
    ensures
        stored_mode(json@) == Some(mode),
{
    proof {
        mode.stored_reads_back();
    }
    write_json(&Json::Text(mode.as_str().to_owned()))
}

/// Reads a control mode.
pub fn read_mode(json: &str) -> (mode: Option<LedgerControlMode>)
    ensures
        mode == stored_mode(json@),
{
    match read_json(json) {
        Ok(value) => {
            if names_twice(json) {
                return None;
            }
            mode_in(&value)
        },
        Err(_) => None,
    }
}

/// Reads the value of a control mode.
pub fn mode_in(value: &Json) -> (mode: Option<LedgerControlMode>)
    ensures
        mode == mode_of(value@),
{
    let word = match value {
        Json::Text(word) => Some(word.as_str()),
        Json::Object(members) => {
            proof {
                lemma_object_says(*members);
            }
            if members.len() == 1 && members[0].value.is_null() {
                Some(members[0].name.as_str())
            } else {
                None
            }
        },
        _ => None,
    };
    match word {
        Some(word) => LedgerControlMode::from_stored(word),
        None => None,
    }
}

/// A row number that the caller is given: that of the entry.
pub open spec fn entered_as(result: Result<i64, LedgerError>, id: i64) -> bool {
    result matches Ok(given) ==> given == id
}

fn check_tokens(d: &NewDecision) -> (result: LedgerResult<()>)
    ensures
        checked(result, LedgerView::tokens_fault(d@)),
{
    if let Err(error) = u64_to_i64(d.input_tokens, "input_tokens") {
        return Err(error);
    }
    if let Err(error) = u64_to_i64(d.cached_input_tokens, "cached_input_tokens") {
        return Err(error);
    }
    if let Err(error) = u64_to_i64(d.cache_write_tokens, "cache_write_tokens") {
        return Err(error);
    }
    if let Err(error) = u64_to_i64(d.output_tokens, "output_tokens") {
        return Err(error);
    }
    if let Err(error) = u64_to_i64(d.reasoning_tokens, "reasoning_tokens") {
        return Err(error);
    }
    if let Err(error) = u64_to_i64(d.latency_ms, "latency_ms") {
        return Err(error);
    }
    Ok(())
}

fn check_prices(s: &NewDecisionScenario) -> (result: LedgerResult<()>)
    ensures
        checked(result, LedgerView::prices_fault(s@)),
{
    if let Err(error) = optional_u64_to_i64(s.reference_price, "reference_price") {
        return Err(error);
    }
    if let Err(error) = optional_u64_to_i64(s.confirmation_price, "confirmation_price") {
        return Err(error);
    }
    if let Err(error) = optional_u64_to_i64(s.invalidation_price, "invalidation_price") {
        return Err(error);
    }
    if let Err(error) = u64_to_i64(s.trigger_price, "trigger_price") {
        return Err(error);
    }
    Ok(())
}

fn check_all_prices(scenarios: &[NewDecisionScenario]) -> (result: LedgerResult<()>)
    ensures
        checked(
            result,
            LedgerView::all_prices_fault(rows(scenarios@), scenarios@.len() as int),
        ),
{
    let mut result: LedgerResult<()> = Ok(());
    let mut i: usize = 0;
    while i < scenarios.len()
        invariant
            i <= scenarios@.len(),
            checked(result, LedgerView::all_prices_fault(rows(scenarios@), i as int)),
        decreases scenarios@.len() - i,
    {
        assert(rows(scenarios@)[i as int] == scenarios@[i as int]@);
        if let Ok(_) = result {
            result = check_prices(&scenarios[i]);
        }
        i += 1;
    }
    result
}

fn first_record(d: &NewDecision, s: &NewDecisionScenario, id: i64) -> (record: ScenarioRecord)
    ensures
        record@ == LedgerView::new_scenario(d@, s@, id as int),
{
    ScenarioRecord {
        id,
        decision_id: d.decision_id.clone(),
        product: s.product,
        setup_type: s.setup_type,
        reference_price: s.reference_price,
        confirmation_price: s.confirmation_price,
        invalidation_price: s.invalidation_price,
        trigger_price: s.trigger_price,
        target_return_pct: s.target_return_pct,
        rationale_ko: copy_text(&s.rationale_ko),
        status: s.status,
        reference_observed_at: s.reference_observed_at,
        terminal_reason: copy_text(&s.terminal_reason),
        confirmation_started_at: None,
        confirmation_tick_count: 0,
        updated_at: d.created_at,
    }
}

fn update_record(s: &mut ScenarioRecord, decision_id: &str, u: &ScenarioStatusUpdate)
    ensures
        final(s)@ == LedgerView::updated_scenario(old(s)@, decision_id@, u@),
{
    let ghost before = s@;
    if same(s.decision_id.as_str(), decision_id) && s.product == u.product {
        s.status = u.status;
        s.confirmation_started_at = u.confirmation_started_at;
        s.confirmation_tick_count = u.confirmation_tick_count;
        s.updated_at = u.updated_at;
        if let Some(reason) = u.terminal_reason {
            s.terminal_reason = Some(reason.to_owned());
        }
        s.reference_observed_at = u.reference_observed_at;
    }
    assert(s@ =~= LedgerView::updated_scenario(before, decision_id@, u@));
}

impl Ledger {
    fn knows(&self, session: &Option<String>) -> (yes: bool)
        ensures
            yes == self@.knows_session(opt(*session)),
    {
        match session {
            Some(session) => find(&self.sessions, session.as_str()).is_some(),
            None => true,
        }
    }

    /// Records a decision with at most two scenarios, all or nothing, and gives its number.
    pub fn record_decision(&mut self, decision: &NewDecision, scenarios: &[NewDecisionScenario]) -> (
        result: LedgerResult<i64>)
        requires
            old(self)@.wf(),
        ensures
            entered(
                result,
                old(self)@.decision_fault(decision@, rows(scenarios@)),
                old(self)@,
                final(self)@,
                old(self)@.decided(decision@, rows(scenarios@)),
            ),
            entered_as(result, old(self)@.ids.decision),
            final(self)@.wf(),
    {
        if let Err(error) = validate_id("decision_id", decision.decision_id.as_str()) {
            return Err(error);
        }
        if let Err(error) = validate_scenarios(scenarios) {
            return Err(error);
        }
        if let Err(error) = check_tokens(decision) {
            return Err(error);
        }
        if let Err(error) = room(self.ids.decision) {
            return Err(error);
        }
        let n: usize = scenarios.len();
        if self.ids.scenario >= i64::MAX - n as i64 {
            return Err(LedgerError::Sql("database or disk is full".to_owned()));
        }
        let found = find(&self.decisions, decision.decision_id.as_str()).is_some();
        if let Err(error) = is_new(found, "llm_decisions.decision_id") {
            return Err(error);
        }
        if let Err(error) = refers(self.knows(&decision.session_id)) {
            return Err(error);
        }
        if let Err(error) = check_all_prices(scenarios) {
            return Err(error);
        }
        let ghost before = self@;
        let ghost views = rows(scenarios@);
        let ghost made = before.decided(decision@, views);
        let id: i64 = self.ids.decision;
        let first: i64 = self.ids.scenario;
        self.decisions.push(StoredDecision { id, decision: decision.clone() });
        self.ids.decision = id + 1;
        let ghost grown = self@.decisions;
        assert(grown =~= made.decisions);
        let mut i: usize = 0;
        while i < n
            invariant
                i <= n,
                n == scenarios@.len() <= 2,
                views == rows(scenarios@),
                first + n <= i64::MAX,
                first == before.ids.scenario,
                self@ == (LedgerView {
                    decisions: grown,
                    scenarios: before.scenarios + Seq::new(
                        i as nat,
                        |k: int| LedgerView::new_scenario(decision@, views[k], first + k),
                    ),
                    ids: Ids { decision: (before.ids.decision + 1) as i64, ..before.ids },
                    ..before
                }),
            decreases n - i,
        {
            let ghost prior = self@;
            let record = first_record(decision, &scenarios[i], first + i as i64);
            assert(record@ == LedgerView::new_scenario(decision@, views[i as int], first + i));
            self.scenarios.push(record);
            i += 1;
            assert(self@.scenarios =~= prior.scenarios.push(record@));
            assert(self@.scenarios =~= before.scenarios + Seq::new(
                i as nat,
                |k: int| LedgerView::new_scenario(decision@, views[k], first + k),
            ));
        }
        self.ids.scenario = first + n as i64;
        proof {
            assert(self@ =~= made);
            lemma_decided(before, decision@, views);
        }
        Ok(id)
    }

    fn finds_scenario(&self, decision_id: &str, u: &ScenarioStatusUpdate) -> (yes: bool)
        ensures
            yes == self@.has_scenario(decision_id@, u@),
    {
        let mut i: usize = 0;
        while i < self.scenarios.len()
            invariant
                i <= self.scenarios@.len(),
                forall|k: int|
                    0 <= k < i ==> !LedgerView::is_scenario(
                        #[trigger] self@.scenarios[k],
                        decision_id@,
                        u@,
                    ),
            decreases self.scenarios@.len() - i,
        {
            let s = &self.scenarios[i];
            assert(self@.scenarios[i as int] == s@);
            if same(s.decision_id.as_str(), decision_id) && s.product == u.product {
                return true;
            }
            i += 1;
        }
        false
    }

    fn check_updates(&self, decision_id: &str, updates: &[ScenarioStatusUpdate]) -> (result:
        LedgerResult<()>)
        ensures
            checked(
                result,
                self@.updates_fault(decision_id@, rows(updates@), updates@.len() as int),
            ),
    {
        let mut result: LedgerResult<()> = Ok(());
        let mut i: usize = 0;
        while i < updates.len()
            invariant
                i <= updates@.len(),
                checked(result, self@.updates_fault(decision_id@, rows(updates@), i as int)),
            decreases updates@.len() - i,
        {
            assert(rows(updates@)[i as int] == updates@[i as int]@);
            if let Ok(_) = result {
                if !self.finds_scenario(decision_id, &updates[i]) {
                    let mut id = joined(decision_id, "/");
                    id.append(updates[i].product.as_str());
                    result = Err(not_found("scenario", id.as_str()));
                }
            }
            i += 1;
        }
        result
    }

    /// Updates scenarios and their decision together, all or nothing.
    pub fn update_decision_and_scenarios(
        &mut self,
        decision_id: &str,
        decision_status: Option<LedgerDecisionStatus>,
        decision_error: Option<&str>,
        scenarios: &[ScenarioStatusUpdate],
    ) -> (result: LedgerResult<()>)
        requires
            old(self)@.wf(),
        ensures
            entered(
                result,
                old(self)@.update_fault(decision_id@, decision_status, rows(scenarios@)),
                old(self)@,
                final(self)@,
                old(self)@.updated(
                    decision_id@,
                    decision_status,
                    match decision_error {
                        Some(text) => Some(text@),
                        None => None,
                    },
                    rows(scenarios@),
                ),
            ),
            final(self)@.wf(),
    {
        if let Err(error) = self.check_updates(decision_id, scenarios) {
            return Err(error);
        }
        let found = find(&self.decisions, decision_id);
        if decision_status.is_some() && found.is_none() {
            return Err(not_found("decision", decision_id));
        }
        let ghost before = self@;
        let ghost updates = rows(scenarios@);
        let ghost error = match decision_error {
            Some(text) => Some(text@),
            None => None,
        };
        let ghost made = before.updated(decision_id@, decision_status, error, updates);
        let mut changed: Vec<ScenarioRecord> = Vec::new();
        let mut i: usize = 0;
        while i < self.scenarios.len()
            invariant
                before == self@,
                updates == rows(scenarios@),
                i <= self.scenarios@.len(),
                changed@.len() == i,
                forall|k: int|
                    0 <= k < i ==> (#[trigger] changed@[k])@ == LedgerView::updated_by(
                        before.scenarios[k],
                        decision_id@,
                        updates,
                        updates.len() as int,
                    ),
            decreases self.scenarios@.len() - i,
        {
            let mut s = self.scenarios[i].clone();
            let ghost start = s@;
            assert(start == before.scenarios[i as int]);
            let mut j: usize = 0;
            while j < scenarios.len()
                invariant
                    j <= scenarios@.len(),
                    updates == rows(scenarios@),
                    s@ == LedgerView::updated_by(start, decision_id@, updates, j as int),
                decreases scenarios@.len() - j,
            {
                assert(updates[j as int] == scenarios@[j as int]@);
                update_record(&mut s, decision_id, &scenarios[j]);
                j += 1;
            }
            changed.push(s);
            i += 1;
        }
        self.scenarios = changed;
        assert(self@.scenarios =~= made.scenarios);
        if let (Some(status), Some(place)) = (decision_status, found) {
            let mut row = self.decisions[place].clone();
            row.decision.status = status;
            if let Some(text) = decision_error {
                row.decision.error = Some(text.to_owned());
            }
            self.decisions.set(place, row);
        }
        proof {
            assert(self@.decisions =~= made.decisions);
            assert(self@ =~= made);
            lemma_updated(before, decision_id@, decision_status, error, updates);
        }
        Ok(())
    }

    /// Closes the decisions whose groups a restart cannot restore: those whose slot is over have
    /// expired, the others are discarded. Gives how many were closed.
    pub fn close_unrestorable_oco_decisions(&mut self, restarted_at: i64) -> (closed: usize)
        requires
            old(self)@.wf(),
        ensures
            final(self)@ == old(self)@.restarted(restarted_at),
            closed == LedgerView::armed_count(old(self)@.decisions),
            final(self)@.wf(),
    {
        let ghost before = self@;
        let ghost made = before.restarted(restarted_at);
        let mut scenarios: Vec<ScenarioRecord> = Vec::new();
        let mut i: usize = 0;
        while i < self.scenarios.len()
            invariant
                before == self@,
                i <= self.scenarios@.len(),
                scenarios@.len() == i,
                forall|k: int|
                    0 <= k < i ==> (#[trigger] scenarios@[k])@ == before.restarted_scenario(
                        before.scenarios[k],
                        restarted_at,
                    ),
            decreases self.scenarios@.len() - i,
        {
            let s = self.restart_scenario(&self.scenarios[i], restarted_at);
            assert(self.scenarios@[i as int]@ == before.scenarios[i as int]);
            scenarios.push(s);
            i += 1;
        }
        let mut decisions: Vec<StoredDecision> = Vec::new();
        let mut closed: usize = 0;
        let mut j: usize = 0;
        assert(before.decisions.take(0) =~= Seq::empty());
        while j < self.decisions.len()
            invariant
                before == self@,
                j <= self.decisions@.len(),
                decisions@.len() == j,
                closed <= j,
                closed == LedgerView::armed_count(before.decisions.take(j as int)),
                forall|k: int|
                    0 <= k < j ==> (#[trigger] decisions@[k])@ == LedgerView::restarted_decision(
                        before.decisions[k],
                        restarted_at,
                    ),
            decreases self.decisions@.len() - j,
        {
            let mut row = self.decisions[j].clone();
            let ghost view = row@;
            assert(view == before.decisions[j as int]);
            assert(before.decisions.take(j + 1).drop_last() =~= before.decisions.take(j as int));
            if row.decision.status == LedgerDecisionStatus::Armed {
                let expired = row.decision.expires_at <= restarted_at;
                row.decision.status = if expired {
                    LedgerDecisionStatus::Expired
                } else {
                    LedgerDecisionStatus::Discarded
                };
                let error = coalesce(&row.decision.error, &Some(restart_text(expired)));
                row.decision.error = error;
                closed += 1;
            }
            assert(row@ =~= LedgerView::restarted_decision(view, restarted_at));
            decisions.push(row);
            j += 1;
        }
        assert(before.decisions.take(j as int) =~= before.decisions);
        self.scenarios = scenarios;
        self.decisions = decisions;
        proof {
            assert(self@.scenarios =~= made.scenarios);
            assert(self@.decisions =~= made.decisions);
            assert(self@ =~= made);
            lemma_restarted(before, restarted_at);
        }
        closed
    }

    fn restart_scenario(&self, s: &ScenarioRecord, at: i64) -> (record: ScenarioRecord)
        ensures
            record@ == self@.restarted_scenario(s@, at),
    {
        let mut record = s.clone();
        if s.status == LedgerScenarioStatus::Armed || s.status == LedgerScenarioStatus::Confirming {
            if let Some(i) = find(&self.decisions, s.decision_id.as_str()) {
                assert(self@.decisions[i as int] == self.decisions@[i as int]@);
                if self.decisions[i].decision.status == LedgerDecisionStatus::Armed {
                    let expired = self.decisions[i].decision.expires_at <= at;
                    record.status = if expired {
                        LedgerScenarioStatus::Expired
                    } else {
                        LedgerScenarioStatus::Replaced
                    };
                    record.confirmation_started_at = None;
                    record.confirmation_tick_count = 0;
                    record.updated_at = at;
                    record.terminal_reason = Some(restart_text(expired));
                }
            }
        }
        assert(record@ =~= self@.restarted_scenario(s@, at));
        record
    }
}

fn restart_text(expired: bool) -> (text: String)
    ensures
        text@ == LedgerView::restart_reason(expired),
{
    if expired {
        "앱 재시작 중 판단 슬롯 만료".to_owned()
    } else {
        "앱 재시작으로 메모리 OCO를 복원하지 않음".to_owned()
    }
}

fn first_order(i: &NewOrderIntent, id: i64, trading_date: String) -> (record: OrderRecord)
    requires
        trading_date@ == written_date(i.requested_at as int),
    ensures
        record@ == LedgerView::new_order(i@, id),
{
    OrderRecord {
        id,
        intent_id: i.intent_id.clone(),
        session_id: copy_text(&i.session_id),
        trade_id: copy_text(&i.trade_id),
        decision_id: copy_text(&i.decision_id),
        scenario_product: i.scenario_product,
        broker_order_id: None,
        broker_org_no: None,
        original_order_id: None,
        trading_date,
        execution_kind: i.execution_kind,
        origin: i.origin,
        code: i.code.clone(),
        side: i.side,
        order_type: i.order_type,
        qty: i.qty,
        price: i.price,
        status: LedgerOrderStatus::Intent,
        message: None,
        requested_at: i.requested_at,
        acknowledged_at: None,
        updated_at: i.requested_at,
    }
}

/// Whether an optional text, or the empty one, is the given one.
fn or_empty_is(text: &Option<String>, given: &str) -> (yes: bool)
    ensures
        yes == (text_or_empty(opt(*text)) == given@),
{
    match text {
        Some(text) => same(text.as_str(), given),
        None => {
            proof {
                reveal_strlit("");
                assert(""@ =~= Seq::empty());
            }
            same("", given)
        },
    }
}

fn names_auto_order(o: &OrderRecord, key: &BrokerOrderKey) -> (yes: bool)
    ensures
        yes == LedgerView::is_auto_order(o@, key@),
{
    same(o.trading_date.as_str(), key.trading_date.as_str()) && or_empty_is(
        &o.broker_org_no,
        key.org_no.as_str(),
    ) && is_text(&o.broker_order_id, key.order_no.as_str()) && o.origin == LedgerOrigin::Auto
}

fn unresolved(o: &OrderRecord, trading_date: &str) -> (yes: bool)
    ensures
        yes == LedgerView::is_unresolved(o@, trading_date@),
{
    same(o.trading_date.as_str(), trading_date) && o.execution_kind == LedgerExecutionKind::Real && (
    o.status == LedgerOrderStatus::Dispatching || o.status == LedgerOrderStatus::Submitted
        || o.status == LedgerOrderStatus::PartiallyFilled || o.status
        == LedgerOrderStatus::CancelPending || o.status == LedgerOrderStatus::Unknown)
}

impl Ledger {
    /// Records an order before it is sent, and gives its number.
    pub fn record_order_intent(&mut self, intent: &NewOrderIntent) -> (result: LedgerResult<i64>)
        requires
            old(self)@.wf(),
        ensures
            entered(
                result,
                old(self)@.intent_fault(intent@),
                old(self)@,
                final(self)@,
                old(self)@.intended(intent@),
            ),
            entered_as(result, old(self)@.ids.order),
            final(self)@.wf(),
    {
        if let Err(error) = validate_id("intent_id", intent.intent_id.as_str()) {
            return Err(error);
        }
        if let Err(error) = u64_to_i64(intent.qty, "qty") {
            return Err(error);
        }
        if intent.qty == 0 {
            return Err(LedgerError::InvalidInput("주문 수량은 1 이상이어야 합니다".to_owned()));
        }
        if let Err(error) = optional_u64_to_i64(intent.price, "price") {
            return Err(error);
        }
        let trading_date = match trading_date_from_fake_epoch(intent.requested_at) {
            Ok(date) => date,
            Err(error) => return Err(error),
        };
        if let Err(error) = room(self.ids.order) {
            return Err(error);
        }
        let found = find(&self.orders, intent.intent_id.as_str()).is_some();
        if let Err(error) = is_new(found, "orders.intent_id") {
            return Err(error);
        }
        let decided = match &intent.decision_id {
            Some(decision) => find(&self.decisions, decision.as_str()).is_some(),
            None => true,
        };
        if let Err(error) = refers(self.knows(&intent.session_id) && decided) {
            return Err(error);
        }
        let ghost before = self@;
        let id: i64 = self.ids.order;
        self.orders.push(first_order(intent, id, trading_date));
        self.ids.order = id + 1;
        proof {
            assert(self@ =~= before.intended(intent@));
            lemma_unique_push::<OrderRecord>(before.orders, self@.orders.last());
        }
        Ok(id)
    }

    /// Records the broker's reply to an order. What the reply leaves out stays as it was.
    pub fn record_order_ack(&mut self, intent_id: &str, ack: &OrderAcknowledgement) -> (result:
        LedgerResult<()>)
        requires
            old(self)@.wf(),
        ensures
            entered(
                result,
                old(self)@.order_fault(intent_id@),
                old(self)@,
                final(self)@,
                old(self)@.acknowledged(intent_id@, ack@),
            ),
            final(self)@.wf(),
    {
        let ghost before = self@;
        match find(&self.orders, intent_id) {
            None => Err(not_found("order", intent_id)),
            Some(i) => {
                let mut row = self.orders[i].clone();
                row.broker_order_id = coalesce(&ack.broker_order_id, &self.orders[i].broker_order_id);
                row.broker_org_no = coalesce(&ack.broker_org_no, &self.orders[i].broker_org_no);
                row.original_order_id = coalesce(
                    &ack.original_order_id,
                    &self.orders[i].original_order_id,
                );
                row.status = ack.status;
                row.message = coalesce(&ack.message, &self.orders[i].message);
                row.acknowledged_at = Some(ack.acknowledged_at);
                row.updated_at = ack.acknowledged_at;
                self.orders.set(i, row);
                proof {
                    assert(self@ =~= before.acknowledged(intent_id@, ack@));
                    lemma_unique_update::<OrderRecord>(
                        before.orders,
                        i as int,
                        self@.orders[i as int],
                    );
                }
                Ok(())
            },
        }
    }

    /// Takes an order from waiting to being sent, once. Where it gives `false` the order was taken
    /// already, or is not there, and the caller must not send it.
    pub fn begin_order_dispatch(&mut self, intent_id: &str, at: i64) -> (result: LedgerResult<bool>)
        requires
            old(self)@.wf(),
        ensures
            match result {
                Ok(taken) => {
                    &&& id_fault("intent_id"@, intent_id@) is None
                    &&& taken == old(self)@.can_dispatch(intent_id@)
                    &&& final(self)@ == (if taken {
                        old(self)@.with_status(
                            intent_id@,
                            LedgerOrderStatus::Dispatching,
                            None,
                            at,
                        )
                    } else {
                        old(self)@
                    })
                },
                Err(error) => id_fault("intent_id"@, intent_id@) == Some(error@) && final(self)@
                    == old(self)@,
            },
            final(self)@.wf(),
    {
        if let Err(error) = validate_id("intent_id", intent_id) {
            return Err(error);
        }
        match find(&self.orders, intent_id) {
            None => Ok(false),
            Some(i) => {
                assert(self@.orders[i as int] == self.orders@[i as int]@);
                if self.orders[i].status == LedgerOrderStatus::Intent {
                    self.change_status(i, intent_id, LedgerOrderStatus::Dispatching, &None, at);
                    Ok(true)
                } else {
                    Ok(false)
                }
            },
        }
    }

    fn change_status(
        &mut self,
        i: usize,
        intent_id: &str,
        status: LedgerOrderStatus,
        message: &Option<String>,
        at: i64,
    )
        requires
            old(self)@.wf(),
            i < old(self)@.orders.len(),
            i == place::<OrderRecord>(old(self)@.orders, intent_id@),
        ensures
            final(self)@ == old(self)@.with_status(intent_id@, status, opt(*message), at),
            final(self)@.wf(),
    {
        let ghost before = self@;
        let mut row = self.orders[i].clone();
        row.status = status;
        row.message = coalesce(message, &self.orders[i].message);
        row.updated_at = at;
        self.orders.set(i, row);
        proof {
            assert(self@ =~= before.with_status(intent_id@, status, opt(*message), at));
            lemma_unique_update::<OrderRecord>(before.orders, i as int, self@.orders[i as int]);
        }
    }

    pub fn update_order_status(
        &mut self,
        intent_id: &str,
        status: LedgerOrderStatus,
        message: Option<&str>,
        updated_at: i64,
    ) -> (result: LedgerResult<()>)
        requires
            old(self)@.wf(),
        ensures
            entered(
                result,
                old(self)@.order_fault(intent_id@),
                old(self)@,
                final(self)@,
                old(self)@.with_status(
                    intent_id@,
                    status,
                    match message {
                        Some(text) => Some(text@),
                        None => None,
                    },
                    updated_at,
                ),
            ),
            final(self)@.wf(),
    {
        let message = match message {
            Some(text) => Some(text.to_owned()),
            None => None,
        };
        match find(&self.orders, intent_id) {
            None => Err(not_found("order", intent_id)),
            Some(i) => {
                self.change_status(i, intent_id, status, &message, updated_at);
                Ok(())
            },
        }
    }

    pub fn get_order(&self, intent_id: &str) -> (order: Option<OrderRecord>)
        ensures
            match order {
                Some(o) => holds::<OrderRecord>(self@.orders, intent_id@) && o@
                    == self@.orders[place::<OrderRecord>(self@.orders, intent_id@)],
                None => !holds::<OrderRecord>(self@.orders, intent_id@),
            },
    {
        match find(&self.orders, intent_id) {
            Some(i) => Some(self.orders[i].clone()),
            None => None,
        }
    }

    /// The automatic order that a key names, by all three of its values.
    pub fn get_auto_order_by_broker_key(&self, key: &BrokerOrderKey) -> (result: LedgerResult<
        Option<OrderRecord>,
    >)
        ensures
            match result {
                Ok(order) => {
                    let p = |o: OrderView| LedgerView::is_auto_order(o, key@);
                    let i = first_where(self@.orders, p);
                    &&& key@.fault() is None
                    &&& match order {
                        Some(o) => i < self@.orders.len() && o@ == self@.orders[i]
                            && LedgerView::is_auto_order(o@, key@),
                        None => i == self@.orders.len(),
                    }
                },
                Err(error) => key@.fault() == Some(error@),
            },
    {
        if let Err(error) = key.validate() {
            return Err(error);
        }
        match self.find_auto_order(key) {
            Some(i) => Ok(Some(self.orders[i].clone())),
            None => Ok(None),
        }
    }

    fn find_auto_order(&self, key: &BrokerOrderKey) -> (found: Option<usize>)
        ensures
            ({
                let p = |o: OrderView| LedgerView::is_auto_order(o, key@);
                match found {
                    Some(i) => i == first_where(self@.orders, p) && i < self@.orders.len() && i
                        < self.orders@.len() && p(self@.orders[i as int]),
                    None => first_where(self@.orders, p) == self@.orders.len() && forall|k: int|
                        0 <= k < self@.orders.len() ==> !p(#[trigger] self@.orders[k]),
                }
            }),
    {
        let ghost p = |o: OrderView| LedgerView::is_auto_order(o, key@);
        let mut i: usize = 0;
        while i < self.orders.len()
            invariant
                i <= self.orders@.len(),
                p == (|o: OrderView| LedgerView::is_auto_order(o, key@)),
                forall|k: int| 0 <= k < i ==> !p(#[trigger] self@.orders[k]),
            decreases self.orders@.len() - i,
        {
            assert(self@.orders[i as int] == self.orders@[i as int]@);
            if names_auto_order(&self.orders[i], key) {
                proof {
                    lemma_first_where(self@.orders, p, i as int);
                }
                return Some(i);
            }
            i += 1;
        }
        proof {
            lemma_first_where(self@.orders, p, i as int);
        }
        None
    }

    /// Whether a key names an automatic order.
    pub fn is_auto_broker_order_key(&self, key: &BrokerOrderKey) -> (result: LedgerResult<bool>)
        ensures
            match result {
                Ok(yes) => key@.fault() is None && yes == (exists|i: int|
                    0 <= i < self@.orders.len() && LedgerView::is_auto_order(
                        #[trigger] self@.orders[i],
                        key@,
                    )),
                Err(error) => key@.fault() == Some(error@),
            },
    {
        if let Err(error) = key.validate() {
            return Err(error);
        }
        let found = self.find_auto_order(key);
        proof {
            let p = |o: OrderView| LedgerView::is_auto_order(o, key@);
            match found {
                Some(i) => {
                    assert(p(self@.orders[i as int]));
                },
                None => {
                    assert forall|k: int| 0 <= k < self@.orders.len() implies
                        !LedgerView::is_auto_order(#[trigger] self@.orders[k], key@) by {
                        assert(!p(self@.orders[k]));
                    }
                },
            }
        }
        Ok(found.is_some())
    }

    /// Orders of a day that may still trade, by the time they were requested.
    pub fn list_unresolved_real_orders(&self, trading_date: &str) -> (result: LedgerResult<
        Vec<OrderRecord>,
    >)
        ensures
            match result {
                Ok(orders) => day_fault(trading_date@) is None && rows(orders@) == by_request(
                    open_orders_of(self@.orders, trading_date@),
                ),
                Err(error) => day_fault(trading_date@) == Some(error@),
            },
    {
        if let Err(error) = validate_day(trading_date) {
            return Err(error);
        }
        let ghost f = open_order(trading_date@);
        let ghost all = self@.orders;
        let mut orders: Vec<OrderRecord> = Vec::new();
        let mut i: usize = 0;
        proof {
            assert(all.take(0) =~= Seq::empty());
            assert(rows(orders@) =~= Seq::empty());
        }
        while i < self.orders.len()
            invariant
                i <= self.orders@.len(),
                all == self@.orders,
                f == open_order(trading_date@),
                rows(orders@) == by_request(filter_mapped(all.take(i as int), f)),
            decreases self.orders@.len() - i,
        {
            assert(all[i as int] == self.orders@[i as int]@);
            proof {
                lemma_filter_mapped_step(all, f, i as int);
            }
            if unresolved(&self.orders[i], trading_date) {
                let ghost prior = filter_mapped(all.take(i as int), f);
                let ghost before = rows(orders@);
                let order = self.orders[i].clone();
                let at = place_by_request(&orders, order.requested_at);
                orders.insert(at, order);
                proof {
                    assert(rows(orders@) =~= before.insert(at as int, order@));
                    assert(prior.push(order@).drop_last() =~= prior);
                }
            }
            i += 1;
        }
        assert(all.take(i as int) =~= all);
        Ok(orders)
    }
}

fn place_by_request(orders: &Vec<OrderRecord>, requested_at: i64) -> (at: usize)
    ensures
        at == first_where(rows(orders@), |o: OrderView| o.requested_at > requested_at),
        at <= orders@.len(),
{
    let ghost p = |o: OrderView| o.requested_at > requested_at;
    let mut i: usize = 0;
    while i < orders.len() && orders[i].requested_at <= requested_at
        invariant
            i <= orders@.len(),
            p == (|o: OrderView| o.requested_at > requested_at),
            forall|k: int| 0 <= k < i ==> !p(#[trigger] rows(orders@)[k]),
        decreases orders@.len() - i,
    {
        i += 1;
    }
    proof {
        lemma_first_where(rows(orders@), p, i as int);
    }
    i
}

fn is_same_fill(booked: &FillRecord, key: &BrokerOrderKey, org_no: &str, fill: &NewFill) -> (yes: bool)
    ensures
        yes == same_fill(booked@, key@.trading_date, org_no@, key@.order_no, fill@),
{
    same(booked.trading_date.as_str(), key.trading_date.as_str()) && same(
        booked.broker_org_no.as_str(),
        org_no,
    ) && same(booked.order_no.as_str(), key.order_no.as_str()) && (same(
        booked.fill.fill_key.as_str(),
        fill.fill_key.as_str(),
    ) || match (&booked.fill.broker_fill_id, &fill.broker_fill_id) {
        (Some(a), Some(b)) => same(a.as_str(), b.as_str()),
        _ => false,
    })
}

fn belongs(f: &FillRecord, key: &BrokerOrderKey) -> (yes: bool)
    ensures
        yes == of_order(f@, key@),
{
    same(f.trading_date.as_str(), key.trading_date.as_str()) && same(
        f.broker_org_no.as_str(),
        key.org_no.as_str(),
    ) && same(f.order_no.as_str(), key.order_no.as_str())
}

fn text_or(text: &Option<String>) -> (found: String)
    ensures
        found@ == text_or_empty(opt(*text)),
{
    match text {
        Some(text) => text.clone(),
        None => String::new(),
    }
}

fn check_fill(key: &BrokerOrderKey, fill: &NewFill) -> (result: LedgerResult<()>)
    ensures
        checked(result, LedgerView::fill_input_fault(key@, fill@)),
{
    if let Err(error) = key.validate() {
        return Err(error);
    }
    if let Err(error) = validate_id("fill_key", fill.fill_key.as_str()) {
        return Err(error);
    }
    let filled_date = match trading_date_from_fake_epoch(fill.filled_at) {
        Ok(date) => date,
        Err(error) => return Err(error),
    };
    if !same(filled_date.as_str(), key.trading_date.as_str()) {
        let mut text = joined("체결 거래일(", filled_date.as_str());
        text.append(")과 장부 주문 거래일(");
        text.append(key.trading_date.as_str());
        text.append(")이 다릅니다");
        return Err(LedgerError::InvalidInput(text));
    }
    if let Some(order_no) = &fill.broker_order_id {
        if !same(order_no.as_str(), key.order_no.as_str()) {
            let mut text = joined("체결 주문번호(", order_no.as_str());
            text.append(")와 장부 주문 식별자(");
            text.append(key.order_no.as_str());
            text.append(")가 다릅니다");
            return Err(LedgerError::InvalidInput(text));
        }
    }
    if let Err(error) = u64_to_i64(fill.qty, "fill.qty") {
        return Err(error);
    }
    if fill.qty == 0 {
        return Err(LedgerError::InvalidInput("체결 수량은 1 이상이어야 합니다".to_owned()));
    }
    Ok(())
}

fn ambiguous_scope(trading_date: &str, order_no: &str) -> (error: LedgerError)
    ensures
        error@ == LedgerView::ambiguous(trading_date@, order_no@),
{
    let mut text = joined("조직번호가 없는 체결의 주문 범위가 모호합니다: ", trading_date);
    text.append("/");
    text.append(order_no);
    LedgerError::InvalidInput(text)
}

impl Ledger {
    /// The organisation of an order number of a day.
    pub fn infer_fill_org_no(&self, trading_date: &str, order_no: &str, intent_id: &Option<String>) -> (
        result: LedgerResult<String>)
        ensures
            match result {
                Ok(org) => self@.org_of(trading_date@, order_no@, opt(*intent_id)) == Some(org@),
                Err(error) => self@.org_of(trading_date@, order_no@, opt(*intent_id)) is None
                    && error@ == LedgerView::ambiguous(trading_date@, order_no@),
            },
    {
        if let Some(intent) = intent_id {
            if let Some(i) = find(&self.orders, intent.as_str()) {
                return Ok(text_or(&self.orders[i].broker_org_no));
            }
        }
        let ghost p = numbered(trading_date@, order_no@);
        let ghost orders = self@.orders;
        let mut org: Option<String> = None;
        let mut several = false;
        let ghost mut first = orders.len() as int;
        let mut i: usize = 0;
        while i < self.orders.len()
            invariant
                i <= self.orders@.len(),
                orders == self@.orders,
                p == numbered(trading_date@, order_no@),
                match org {
                    None => !several && first == orders.len() && forall|k: int|
                        0 <= k < i ==> !p(#[trigger] orders[k]),
                    Some(text) => {
                        &&& 0 <= first < i
                        &&& p(orders[first])
                        &&& forall|k: int| 0 <= k < first ==> !p(#[trigger] orders[k])
                        &&& text@ == text_or_empty(orders[first].broker_org_no)
                        &&& several == (exists|k: int|
                            0 <= k < i && p(#[trigger] orders[k]) && text_or_empty(
                                orders[k].broker_org_no,
                            ) != text@)
                    },
                },
            decreases self.orders@.len() - i,
        {
            let o = &self.orders[i];
            assert(orders[i as int] == o@);
            if same(o.trading_date.as_str(), trading_date) && is_text(&o.broker_order_id, order_no) {
                assert(p(orders[i as int]));
                let other = text_or(&o.broker_org_no);
                match &org {
                    None => {
                        proof {
                            first = i as int;
                        }
                        org = Some(other);
                    },
                    Some(text) => {
                        if !same(text.as_str(), other.as_str()) {
                            several = true;
                        }
                    },
                }
            }
            i += 1;
        }
        proof {
            lemma_first_where(orders, p, first);
        }
        match org {
            None => Ok(String::new()),
            Some(text) => if several {
                Err(ambiguous_scope(trading_date, order_no))
            } else {
                Ok(text)
            },
        }
    }

    fn is_booked(&self, key: &BrokerOrderKey, org_no: &str, fill: &NewFill) -> (yes: bool)
        ensures
            yes == self@.already_filled(key@, org_no@, fill@),
    {
        let mut i: usize = 0;
        while i < self.fills.len()
            invariant
                i <= self.fills@.len(),
                forall|k: int|
                    0 <= k < i ==> !same_fill(
                        #[trigger] self@.fills[k],
                        key@.trading_date,
                        org_no@,
                        key@.order_no,
                        fill@,
                    ),
            decreases self.fills@.len() - i,
        {
            assert(self@.fills[i as int] == self.fills@[i as int]@);
            if is_same_fill(&self.fills[i], key, org_no, fill) {
                return true;
            }
            i += 1;
        }
        false
    }

    /// Books a fill of an order. Gives whether it is new; one that is booked already is left out.
    pub fn record_fill_for_broker_order(&mut self, key: &BrokerOrderKey, fill: &NewFill) -> (result:
        LedgerResult<bool>)
        requires
            old(self)@.wf(),
        ensures
            entered(
                result,
                old(self)@.fill_fault(key@, fill@),
                old(self)@,
                final(self)@,
                old(self)@.filled(key@, fill@),
            ),
            result matches Ok(new) ==> new == old(self)@.fill_is_new(key@, fill@),
            final(self)@.wf(),
    {
        if let Err(error) = check_fill(key, fill) {
            return Err(error);
        }
        let org_no = if key.org_no.as_str().is_empty() {
            match self.infer_fill_org_no(
                key.trading_date.as_str(),
                key.order_no.as_str(),
                &fill.intent_id,
            ) {
                Ok(org) => org,
                Err(error) => return Err(error),
            }
        } else {
            key.org_no.clone()
        };
        assert(self@.fill_org(key@, fill@) == Some(org_no@));
        if let Err(error) = room(self.ids.fill) {
            return Err(error);
        }
        let ghost before = self@;
        let id: i64 = self.ids.fill;
        if self.is_booked(key, org_no.as_str(), fill) {
            self.ids.fill = id + 1;
            assert(self@ =~= before.filled(key@, fill@));
            return Ok(false);
        }
        let known = match &fill.intent_id {
            Some(intent) => find(&self.orders, intent.as_str()).is_some(),
            None => true,
        };
        if let Err(error) = refers(known) {
            return Err(error);
        }
        self.fills.push(
            FillRecord {
                id,
                trading_date: key.trading_date.clone(),
                broker_org_no: org_no,
                order_no: key.order_no.clone(),
                fill: fill.clone(),
            },
        );
        self.ids.fill = id + 1;
        assert(self@ =~= before.filled(key@, fill@));
        Ok(true)
    }

    /// Books a fill that comes without its order's key: the trading date is that of the fill, and
    /// the organisation that of the orders of the day.
    pub fn record_fill(&mut self, fill: &NewFill) -> (result: LedgerResult<bool>)
        requires
            old(self)@.wf(),
        ensures
            entered(
                result,
                old(self)@.plain_fill_fault(fill@),
                old(self)@,
                final(self)@,
                old(self)@.filled(old(self)@.key_of_fill(fill@), fill@),
            ),
            result matches Ok(new) ==> new == old(self)@.fill_is_new(
                old(self)@.key_of_fill(fill@),
                fill@,
            ),
            final(self)@.wf(),
    {
        if let Err(error) = validate_id("fill_key", fill.fill_key.as_str()) {
            return Err(error);
        }
        let trading_date = match trading_date_from_fake_epoch(fill.filled_at) {
            Ok(date) => date,
            Err(error) => return Err(error),
        };
        let order_no = match &fill.broker_order_id {
            Some(order_no) => if is_blank(order_no.as_str()) {
                fill.fill_key.clone()
            } else {
                order_no.clone()
            },
            None => fill.fill_key.clone(),
        };
        let org_no = match self.infer_fill_org_no(
            trading_date.as_str(),
            order_no.as_str(),
            &fill.intent_id,
        ) {
            Ok(org) => org,
            Err(error) => return Err(error),
        };
        let key = BrokerOrderKey { trading_date, org_no, order_no };
        assert(key@ == self@.key_of_fill(fill@));
        self.record_fill_for_broker_order(&key, fill)
    }

    /// Keeps a notice of a fill. Notices that say the same are kept each.
    pub fn record_fill_notice(&mut self, notice: &NewFillNotice) -> (result: LedgerResult<()>)
        requires
            old(self)@.wf(),
        ensures
            entered(
                result,
                old(self)@.notice_fault(notice@),
                old(self)@,
                final(self)@,
                old(self)@.noticed(notice@),
            ),
            final(self)@.wf(),
    {
        if let Err(error) = validate_id("notice_id", notice.notice_id.as_str()) {
            return Err(error);
        }
        if let Err(error) = validate_id("broker_order_id", notice.broker_order_id.as_str()) {
            return Err(error);
        }
        if let Err(error) = validate_id("code", notice.code.as_str()) {
            return Err(error);
        }
        let trading_date = match trading_date_from_fake_epoch(notice.notified_at) {
            Ok(date) => date,
            Err(error) => return Err(error),
        };
        if let Err(error) = u64_to_i64(notice.qty, "fill_notice.qty") {
            return Err(error);
        }
        if notice.qty == 0 {
            return Err(
                LedgerError::InvalidInput("체결통보 수량은 1 이상이어야 합니다".to_owned()),
            );
        }
        let priced = match notice.price {
            Some(price) => price > 0,
            None => false,
        };
        if !priced {
            return Err(
                LedgerError::InvalidInput("체결통보 가격은 유효한 양수여야 합니다".to_owned()),
            );
        }
        if let Err(error) = room(self.ids.notice) {
            return Err(error);
        }
        let found = find(&self.notices, notice.notice_id.as_str()).is_some();
        if let Err(error) = is_new(found, "fill_notices.notice_id") {
            return Err(error);
        }
        let ghost before = self@;
        let id: i64 = self.ids.notice;
        self.notices.push(NoticeRecord { id, trading_date, notice: notice.clone() });
        self.ids.notice = id + 1;
        proof {
            assert(self@ =~= before.noticed(notice@));
            lemma_unique_push::<NoticeRecord>(before.notices, self@.notices.last());
        }
        Ok(())
    }

    /// Shares that are booked for an order, and what they came to in ten-thousandths of a won,
    /// where that fits.
    pub fn fill_totals_for_broker_order(&self, key: &BrokerOrderKey) -> (result: LedgerResult<
        (u64, Option<u128>),
    >)
        ensures
            match result {
                Ok((qty, value)) => {
                    &&& self@.totals_fault(key@) is None
                    &&& qty == LedgerView::filled_qty(self@.fills, key@)
                    &&& match value {
                        Some(v) => v == LedgerView::filled_value(self@.fills, key@),
                        None => LedgerView::filled_value(self@.fills, key@) > u128::MAX,
                    }
                },
                Err(error) => self@.totals_fault(key@) == Some(error@),
            },
    {
        if let Err(error) = key.validate() {
            return Err(error);
        }
        let ghost all = self@.fills;
        let mut qty: u128 = 0;
        let mut value: Option<u128> = Some(0);
        let mut i: usize = 0;
        assert(all.take(0) =~= Seq::empty());
        while i < self.fills.len()
            invariant
                i <= self.fills@.len(),
                all == self@.fills,
                qty == LedgerView::filled_qty(all.take(i as int), key@),
                qty <= i * 0xffff_ffff_ffff_ffff,
                LedgerView::filled_value(all.take(i as int), key@) >= 0,
                match value {
                    Some(v) => v == LedgerView::filled_value(all.take(i as int), key@),
                    None => LedgerView::filled_value(all.take(i as int), key@) > u128::MAX,
                },
            decreases self.fills@.len() - i,
        {
            let f = &self.fills[i];
            assert(all[i as int] == f@);
            assert(all.take(i + 1).drop_last() =~= all.take(i as int));
            proof {
                assert(i * 0xffff_ffff_ffff_ffff + 0xffff_ffff_ffff_ffff == (i + 1)
                    * 0xffff_ffff_ffff_ffff) by (nonlinear_arith);
                assert(i * 0xffff_ffff_ffff_ffff <= 0xffff_ffff_ffff_ffff * 0xffff_ffff_ffff_ffff)
                    by (nonlinear_arith)
                    requires
                        i <= 0xffff_ffff_ffff_ffff,
                ;
                assert(0 <= f.fill.qty * f.fill.price <= 0xffff_ffff_ffff_ffff
                    * 0xffff_ffff_ffff_ffff) by (nonlinear_arith)
                    requires
                        f.fill.qty <= 0xffff_ffff_ffff_ffff,
                        f.fill.price <= 0xffff_ffff_ffff_ffff,
                ;
            }
            if belongs(f, key) {
                qty = qty + f.fill.qty as u128;
                let part: u128 = f.fill.qty as u128 * f.fill.price as u128;
                value = match value {
                    Some(v) => v.checked_add(part),
                    None => None,
                };
            }
            i += 1;
        }
        assert(all.take(i as int) =~= all);
        if qty > i64::MAX as u128 {
            return Err(LedgerError::Sql("integer overflow".to_owned()));
        }
        Ok((qty as u64, value))
    }

    /// Shares that are booked for an order.
    pub fn filled_qty_for_broker_order(&self, key: &BrokerOrderKey) -> (result: LedgerResult<u64>)
        ensures
            match result {
                Ok(qty) => self@.totals_fault(key@) is None && qty == LedgerView::filled_qty(
                    self@.fills,
                    key@,
                ),
                Err(error) => self@.totals_fault(key@) == Some(error@),
            },
    {
        match self.fill_totals_for_broker_order(key) {
            Ok((qty, _)) => Ok(qty),
            Err(error) => Err(error),
        }
    }

    /// Records a trade as it stands now, and gives its number.
    pub fn upsert_trade(&mut self, trade: &NewTrade) -> (result: LedgerResult<i64>)
        requires
            old(self)@.wf(),
        ensures
            entered(
                result,
                old(self)@.trade_fault(trade@),
                old(self)@,
                final(self)@,
                old(self)@.traded(trade@),
            ),
            entered_as(result, old(self)@.trade_number(trade@.trade_id)),
            final(self)@.wf(),
    {
        if let Err(error) = validate_id("trade_id", trade.trade_id.as_str()) {
            return Err(error);
        }
        if let Err(error) = u64_to_i64(trade.entry_qty, "entry_qty") {
            return Err(error);
        }
        if let Err(error) = u64_to_i64(trade.exit_qty, "exit_qty") {
            return Err(error);
        }
        if trade.exit_qty > trade.entry_qty {
            return Err(
                LedgerError::InvalidInput("청산 수량은 진입 수량보다 클 수 없습니다".to_owned()),
            );
        }
        let found = find(&self.trades, trade.trade_id.as_str());
        if let Err(error) = room(self.ids.trade) {
            return Err(error);
        }
        if let Err(error) = refers(self.knows(&trade.session_id)) {
            return Err(error);
        }
        let ghost before = self@;
        match found {
            Some(i) => {
                let id: i64 = self.trades[i].id;
                assert(before.trades[i as int] == self.trades@[i as int]@);
                self.trades.set(i, trade_record(trade, id));
                self.ids.trade = self.ids.trade + 1;
                proof {
                    assert(self@ =~= before.traded(trade@));
                    lemma_unique_update::<TradeRecord>(
                        before.trades,
                        i as int,
                        self@.trades[i as int],
                    );
                }
                Ok(id)
            },
            None => {
                let id: i64 = self.ids.trade;
                self.trades.push(trade_record(trade, id));
                self.ids.trade = id + 1;
                proof {
                    assert(self@ =~= before.traded(trade@));
                    lemma_unique_push::<TradeRecord>(before.trades, self@.trades.last());
                }
                Ok(id)
            },
        }
    }
}

fn trade_record(t: &NewTrade, id: i64) -> (record: TradeRecord)
    ensures
        record@ == LedgerView::trade_row(t@, id),
{
    TradeRecord {
        id,
        trade_id: t.trade_id.clone(),
        session_id: copy_text(&t.session_id),
        execution_kind: t.execution_kind,
        origin: t.origin,
        code: t.code.clone(),
        entry_qty: t.entry_qty,
        exit_qty: t.exit_qty,
        entry_avg_price: t.entry_avg_price,
        exit_avg_price: t.exit_avg_price,
        pnl_rate: t.pnl_rate,
        entered_at: t.entered_at,
        exited_at: t.exited_at,
        status: t.status,
        exit_reason: copy_text(&t.exit_reason),
        updated_at: t.updated_at,
    }
}

impl Ledger {
    /// Organisations that are known for an order number of a day, from the replies to orders and
    /// from fills, in order.
    pub fn broker_order_org_candidates(
        &self,
        trading_date: &str,
        broker_order_id: &str,
        code: &str,
        side: LedgerSide,
    ) -> (result: LedgerResult<Vec<String>>)
        ensures
            ({
                let key = KeyView {
                    trading_date: trading_date@,
                    org_no: Seq::empty(),
                    order_no: broker_order_id@,
                };
                let fault = first_fault(key.fault(), id_fault("code"@, code@));
                match result {
                    Ok(orgs) => {
                        &&& fault is None
                        &&& in_order(views(orgs@))
                        &&& forall|org: Seq<char>| #[trigger]
                            views(orgs@).contains(org) <==> self@.is_candidate(
                                org,
                                trading_date@,
                                broker_order_id@,
                                code@,
                                side,
                            )
                    },
                    Err(error) => fault == Some(error@),
                }
            }),
    {
        proof {
            reveal_strlit("");
            assert(""@ =~= Seq::<char>::empty());
        }
        if let Err(error) = BrokerOrderKey::new(trading_date, "", broker_order_id) {
            return Err(error);
        }
        if let Err(error) = validate_id("code", code) {
            return Err(error);
        }
        let ghost orders = self@.orders;
        let ghost fills = self@.fills;
        let ghost date = trading_date@;
        let ghost no = broker_order_id@;
        let mut orgs: Vec<String> = Vec::new();
        let mut i: usize = 0;
        while i < self.orders.len()
            invariant
                i <= self.orders@.len(),
                orders == self@.orders,
                date == trading_date@,
                no == broker_order_id@,
                in_order(views(orgs@)),
                forall|org: Seq<char>| #[trigger]
                    views(orgs@).contains(org) <==> !only_spaces(org) && exists|k: int|
                        0 <= k < i && order_org(#[trigger] orders[k], date, no, code@, side)
                            == Some(org),
            decreases self.orders@.len() - i,
        {
            let o = &self.orders[i];
            assert(orders[i as int] == o@);
            let ghost prior = views(orgs@);
            if same(o.trading_date.as_str(), trading_date) && is_text(
                &o.broker_order_id,
                broker_order_id,
            ) && same(o.code.as_str(), code) && o.side == side {
                if let Some(org) = &o.broker_org_no {
                    if !is_spaces(org.as_str()) {
                        insert_in_order(&mut orgs, org.as_str());
                    }
                }
            }
            proof {
                let own = order_org(orders[i as int], date, no, code@, side);
                assert forall|org: Seq<char>| #[trigger] views(orgs@).contains(org) <==> (
                !only_spaces(org) && exists|k: int|
                    0 <= k < i + 1 && order_org(#[trigger] orders[k], date, no, code@, side)
                        == Some(org)) by {
                    assert(prior.contains(org) || !prior.contains(org));
                    if own == Some(org) {
                        assert(order_org(orders[i as int], date, no, code@, side) == Some(org));
                    }
                }
            }
            i += 1;
        }
        let mut j: usize = 0;
        while j < self.fills.len()
            invariant
                j <= self.fills@.len(),
                orders == self@.orders,
                fills == self@.fills,
                date == trading_date@,
                no == broker_order_id@,
                in_order(views(orgs@)),
                forall|org: Seq<char>| #[trigger]
                    views(orgs@).contains(org) <==> !only_spaces(org) && ((exists|k: int|
                        0 <= k < orders.len() && order_org(
                            #[trigger] orders[k],
                            date,
                            no,
                            code@,
                            side,
                        ) == Some(org)) || (exists|k: int|
                        0 <= k < j && filled_org(#[trigger] fills[k], date, no, code@, side)
                            == Some(org))),
            decreases self.fills@.len() - j,
        {
            let f = &self.fills[j];
            assert(fills[j as int] == f@);
            let ghost prior = views(orgs@);
            if same(f.trading_date.as_str(), trading_date) && same(
                f.order_no.as_str(),
                broker_order_id,
            ) && same(f.fill.code.as_str(), code) && f.fill.side == side {
                if !is_spaces(f.broker_org_no.as_str()) {
                    insert_in_order(&mut orgs, f.broker_org_no.as_str());
                }
            }
            proof {
                let own = filled_org(fills[j as int], date, no, code@, side);
                assert forall|org: Seq<char>| #[trigger] views(orgs@).contains(org) <==> (
                !only_spaces(org) && ((exists|k: int|
                    0 <= k < orders.len() && order_org(#[trigger] orders[k], date, no, code@, side)
                        == Some(org)) || (exists|k: int|
                    0 <= k < j + 1 && filled_org(#[trigger] fills[k], date, no, code@, side)
                        == Some(org)))) by {
                    assert(prior.contains(org) || !prior.contains(org));
                    if own == Some(org) {
                        assert(filled_org(fills[j as int], date, no, code@, side) == Some(org));
                    }
                }
            }
            j += 1;
        }
        Ok(orgs)
    }

    /// A page of the trades that a query asks for, the newest first.
    pub fn list_trades(&self, query: &TradeQuery, cursor: Option<i64>, limit: usize) -> (page:
        CursorPage<TradeRecord>)
        ensures
            ({
                let all = self@.listed_trades(*query, cursor);
                let size = page_size(limit);
                &&& rows(page.items@) == all.take(shorter(size, all.len() as int))
                &&& page.next_cursor == (if all.len() > size {
                    Some(all[size - 1].id)
                } else {
                    None
                })
            }),
    {
        let size: usize = normalize_limit(limit);
        let ghost keep = wanted_trade(*query, cursor);
        let ghost table = self@.trades;
        let ghost all = newest(table, keep);
        let ghost mut acc: Seq<TradeView> = Seq::empty();
        let mut items: Vec<TradeRecord> = Vec::new();
        let mut more = false;
        let mut i: usize = self.trades.len();
        proof {
            assert(table.take(i as int) =~= table);
            assert(acc + newest(table, keep) =~= all);
            assert(rows(items@) =~= acc.take(0));
        }
        while i > 0 && !more
            invariant
                i <= self.trades@.len(),
                table == self@.trades,
                keep == wanted_trade(*query, cursor),
                all == acc + newest(table.take(i as int), keep),
                1 <= size <= 200,
                more == (acc.len() > size),
                acc.len() <= size + 1,
                items@.len() == shorter(size as int, acc.len() as int),
                rows(items@) == acc.take(shorter(size as int, acc.len() as int)),
            decreases i,
        {
            i -= 1;
            let t = &self.trades[i];
            proof {
                assert(table[i as int] == t@);
                assert(table.take(i + 1).drop_last() =~= table.take(i as int));
                assert(table.take(i + 1).last() == t@);
            }
            if is_wanted_trade(t, query, cursor) {
                let ghost prior = acc;
                proof {
                    acc = acc.push(t@);
                    assert(prior + (seq![t@] + newest(table.take(i as int), keep)) =~= acc
                        + newest(table.take(i as int), keep));
                }
                if items.len() < size {
                    let ghost before = rows(items@);
                    items.push(t.clone());
                    assert(rows(items@) =~= before.push(t@));
                    assert(acc.take(acc.len() as int) =~= acc);
                    assert(prior.take(prior.len() as int) =~= prior);
                } else {
                    more = true;
                    assert(acc.take(size as int) =~= prior.take(size as int));
                }
            }
        }
        proof {
            if !more {
                assert(table.take(0) =~= Seq::empty());
                assert(all =~= acc);
            }
            assert(acc.take(shorter(size as int, acc.len() as int)) =~= all.take(
                shorter(size as int, all.len() as int),
            ));
        }
        let next_cursor = if more {
            let last: &TradeRecord = &items[size - 1];
            assert(rows(items@)[size - 1] == last@);
            Some(last.id)
        } else {
            None
        };
        CursorPage { items, next_cursor }
    }

    /// A page of the decisions that a query asks for, the newest first, each with its scenarios.
    pub fn list_decisions(&self, query: &DecisionQuery, cursor: Option<i64>, limit: usize) -> (page:
        CursorPage<DecisionRecord>)
        ensures
            ({
                let all = self@.listed_decisions(*query, cursor);
                let size = page_size(limit);
                &&& rows(page.items@) == all.take(shorter(size, all.len() as int)).map_values(
                    |row: DecisionView| self@.with_scenarios(row),
                )
                &&& page.next_cursor == (if all.len() > size {
                    Some(all[size - 1].id)
                } else {
                    None
                })
            }),
    {
        let size: usize = normalize_limit(limit);
        let ghost keep = wanted_decision(*query, cursor);
        let ghost full_of = |row: DecisionView| self@.with_scenarios(row);
        let ghost table = self@.decisions;
        let ghost all = newest(table, keep);
        let ghost mut acc: Seq<DecisionView> = Seq::empty();
        let mut items: Vec<DecisionRecord> = Vec::new();
        let mut more = false;
        let mut i: usize = self.decisions.len();
        proof {
            assert(table.take(i as int) =~= table);
            assert(acc + newest(table, keep) =~= all);
            assert(rows(items@) =~= acc.take(0).map_values(full_of));
        }
        while i > 0 && !more
            invariant
                i <= self.decisions@.len(),
                table == self@.decisions,
                keep == wanted_decision(*query, cursor),
                full_of == (|row: DecisionView| self@.with_scenarios(row)),
                all == acc + newest(table.take(i as int), keep),
                1 <= size <= 200,
                more == (acc.len() > size),
                acc.len() <= size + 1,
                items@.len() == shorter(size as int, acc.len() as int),
                rows(items@) == acc.take(shorter(size as int, acc.len() as int)).map_values(
                    full_of,
                ),
            decreases i,
        {
            i -= 1;
            let d = &self.decisions[i];
            proof {
                assert(table[i as int] == d@);
                assert(table.take(i + 1).drop_last() =~= table.take(i as int));
                assert(table.take(i + 1).last() == d@);
            }
            if is_wanted_decision(d, query, cursor) {
                let ghost prior = acc;
                proof {
                    acc = acc.push(d@);
                    assert(prior + (seq![d@] + newest(table.take(i as int), keep)) =~= acc
                        + newest(table.take(i as int), keep));
                }
                if items.len() < size {
                    let ghost before = rows(items@);
                    let record = self.full_decision(d);
                    items.push(record);
                    assert(rows(items@) =~= before.push(record@));
                    assert(acc.take(acc.len() as int) =~= acc);
                    assert(prior.take(prior.len() as int) =~= prior);
                    assert(acc.map_values(full_of) =~= prior.map_values(full_of).push(record@));
                } else {
                    more = true;
                    assert(acc.take(size as int) =~= prior.take(size as int));
                }
            }
        }
        proof {
            if !more {
                assert(table.take(0) =~= Seq::empty());
                assert(all =~= acc);
            }
            assert(acc.take(shorter(size as int, acc.len() as int)) =~= all.take(
                shorter(size as int, all.len() as int),
            ));
        }
        let next_cursor = if more {
            let last: &DecisionRecord = &items[size - 1];
            assert(rows(items@)[size - 1] == last@);
            Some(last.id)
        } else {
            None
        };
        CursorPage { items, next_cursor }
    }

    fn full_decision(&self, d: &StoredDecision) -> (record: DecisionRecord)
        ensures
            record@ == self@.with_scenarios(d@),
    {
        let ghost f = of_decision(d@.decision.decision_id);
        let ghost all = self@.scenarios;
        let mut scenarios: Vec<ScenarioRecord> = Vec::new();
        let mut i: usize = 0;
        proof {
            assert(all.take(0) =~= Seq::empty());
            assert(rows(scenarios@) =~= Seq::empty());
        }
        while i < self.scenarios.len()
            invariant
                i <= self.scenarios@.len(),
                all == self@.scenarios,
                f == of_decision(d@.decision.decision_id),
                rows(scenarios@) == filter_mapped(all.take(i as int), f),
            decreases self.scenarios@.len() - i,
        {
            let s = &self.scenarios[i];
            proof {
                assert(all[i as int] == s@);
                lemma_filter_mapped_step(all, f, i as int);
            }
            if same(s.decision_id.as_str(), d.decision.decision_id.as_str()) {
                let ghost before = rows(scenarios@);
                scenarios.push(s.clone());
                assert(rows(scenarios@) =~= before.push(s@));
            }
            i += 1;
        }
        assert(all.take(i as int) =~= all);
        let copy = d.decision.clone();
        DecisionRecord {
            id: d.id,
            decision_id: copy.decision_id,
            session_id: copy.session_id,
            control_mode: copy.control_mode,
            revision: copy.revision,
            as_of_ts: copy.as_of_ts,
            expires_at: copy.expires_at,
            underlying_price: copy.underlying_price,
            status: copy.status,
            model: copy.model,
            prompt_version: copy.prompt_version,
            input_tokens: copy.input_tokens,
            cached_input_tokens: copy.cached_input_tokens,
            cache_write_tokens: copy.cache_write_tokens,
            output_tokens: copy.output_tokens,
            reasoning_tokens: copy.reasoning_tokens,
            latency_ms: copy.latency_ms,
            input_hash: copy.input_hash,
            chart_hash: copy.chart_hash,
            market_regime: copy.market_regime,
            decision_summary_ko: copy.decision_summary_ko,
            error: copy.error,
            created_at: copy.created_at,
            scenarios,
        }
    }
}

fn is_spaces(text: &str) -> (yes: bool)
    ensures
        yes == only_spaces(text@),
{
    let chars = chars_of(text);
    let mut i: usize = 0;
    while i < chars.len()
        invariant
            i <= chars@.len(),
            chars@ == text@,
            forall|k: int| 0 <= k < i ==> #[trigger] text@[k] == ' ',
        decreases chars@.len() - i,
    {
        if chars[i] != ' ' {
            return false;
        }
        i += 1;
    }
    true
}

fn is_before(id: i64, cursor: Option<i64>) -> (yes: bool)
    ensures
        yes == before_cursor(id, cursor),
{
    match cursor {
        Some(cursor) => id < cursor,
        None => id < i64::MAX,
    }
}

fn is_wanted_trade(t: &TradeRecord, query: &TradeQuery, cursor: Option<i64>) -> (yes: bool)
    ensures
        yes == wanted_trade(*query, cursor)(t@),
{
    let of_kind = match query.execution_kind {
        Some(kind) => t.execution_kind == kind,
        None => true,
    };
    let of_origin = match query.origin {
        Some(origin) => t.origin == origin,
        None => true,
    };
    let of_status = match query.status {
        Some(status) => t.status == status,
        None => true,
    };
    is_before(t.id, cursor) && of_kind && of_origin && of_status
}

fn is_wanted_decision(d: &StoredDecision, query: &DecisionQuery, cursor: Option<i64>) -> (yes: bool)
    ensures
        yes == wanted_decision(*query, cursor)(d@),
{
    let of_mode = match query.control_mode {
        Some(mode) => d.decision.control_mode == mode,
        None => true,
    };
    let of_status = match query.status {
        Some(status) => d.decision.status == status,
        None => true,
    };
    is_before(d.id, cursor) && of_mode && of_status
}

/// The tables of a book, as they come from where they are kept.
#[derive(Debug)]
pub struct LedgerTables {
    pub sessions: Vec<SessionRecord>,
    pub decisions: Vec<StoredDecision>,
    pub scenarios: Vec<ScenarioRecord>,
    pub orders: Vec<OrderRecord>,
    pub fills: Vec<FillRecord>,
    pub notices: Vec<NoticeRecord>,
    pub trades: Vec<TradeRecord>,
    pub state: Vec<StateEntry>,
    pub ids: Ids,
}

impl View for LedgerTables {
    type V = LedgerView;

    open spec fn view(&self) -> LedgerView {
        LedgerView {
            sessions: rows(self.sessions@),
            decisions: rows(self.decisions@),
            scenarios: rows(self.scenarios@),
            orders: rows(self.orders@),
            fills: rows(self.fills@),
            notices: rows(self.notices@),
            trades: rows(self.trades@),
            state: rows(self.state@),
            ids: self.ids,
        }
    }
}

impl LedgerTables {
    fn decisions_rise(&self) -> (yes: bool)
        ensures
            yes == self@.decisions_ordered(),
    {
        let ghost rows = self@.decisions;
        let mut i: usize = 0;
        while i < self.decisions.len()
            invariant
                i <= self.decisions@.len(),
                rows == self@.decisions,
                forall|a: int, b: int|
                    #![trigger rows[a], rows[b]]
                    0 <= a < b < i ==> rows[a].id < rows[b].id,
                forall|a: int| 0 <= a < i ==> (#[trigger] rows[a]).id < self.ids.decision,
            decreases self.decisions@.len() - i,
        {
            assert(rows[i as int] == self.decisions@[i as int]@);
            if self.decisions[i].id >= self.ids.decision {
                return false;
            }
            if i > 0 {
                assert(rows[i - 1] == self.decisions@[i - 1]@);
                if self.decisions[i - 1].id >= self.decisions[i].id {
                    return false;
                }
            }
            i += 1;
        }
        true
    }

    fn trades_rise(&self) -> (yes: bool)
        ensures
            yes == self@.trades_ordered(),
    {
        let ghost rows = self@.trades;
        let mut i: usize = 0;
        while i < self.trades.len()
            invariant
                i <= self.trades@.len(),
                rows == self@.trades,
                forall|a: int, b: int|
                    #![trigger rows[a], rows[b]]
                    0 <= a < b < i ==> rows[a].id < rows[b].id,
                forall|a: int| 0 <= a < i ==> (#[trigger] rows[a]).id < self.ids.trade,
            decreases self.trades@.len() - i,
        {
            assert(rows[i as int] == self.trades@[i as int]@);
            if self.trades[i].id >= self.ids.trade {
                return false;
            }
            if i > 0 {
                assert(rows[i - 1] == self.trades@[i - 1]@);
                if self.trades[i - 1].id >= self.trades[i].id {
                    return false;
                }
            }
            i += 1;
        }
        true
    }

    fn scenarios_fit(&self) -> (yes: bool)
        ensures
            yes == self@.scenarios_belong(),
    {
        let ghost rows = self@.scenarios;
        let mut j: usize = 0;
        while j < self.scenarios.len()
            invariant
                j <= self.scenarios@.len(),
                rows == self@.scenarios,
                forall|a: int|
                    0 <= a < j ==> holds::<StoredDecision>(
                        self@.decisions,
                        (#[trigger] rows[a]).decision_id,
                    ),
                forall|a: int, b: int|
                    #![trigger rows[a], rows[b]]
                    0 <= a < b < j ==> !(rows[a].decision_id == rows[b].decision_id
                        && rows[a].product == rows[b].product),
            decreases self.scenarios@.len() - j,
        {
            assert(rows[j as int] == self.scenarios@[j as int]@);
            if find(&self.decisions, self.scenarios[j].decision_id.as_str()).is_none() {
                return false;
            }
            let mut i: usize = 0;
            while i < j
                invariant
                    i <= j < self.scenarios@.len(),
                    rows == self@.scenarios,
                    forall|a: int|
                        0 <= a < i ==> !((#[trigger] rows[a]).decision_id
                            == rows[j as int].decision_id && rows[a].product
                            == rows[j as int].product),
                decreases j - i,
            {
                assert(rows[i as int] == self.scenarios@[i as int]@);
                assert(rows[j as int] == self.scenarios@[j as int]@);
                if same(
                    self.scenarios[i].decision_id.as_str(),
                    self.scenarios[j].decision_id.as_str(),
                ) && self.scenarios[i].product == self.scenarios[j].product {
                    return false;
                }
                i += 1;
            }
            j += 1;
        }
        true
    }

    fn fills_fit(&self) -> (yes: bool)
        ensures
            yes == self@.fills_differ(),
    {
        let ghost rows = self@.fills;
        let mut j: usize = 0;
        while j < self.fills.len()
            invariant
                j <= self.fills@.len(),
                rows == self@.fills,
                forall|a: int, b: int|
                    #![trigger rows[a], rows[b]]
                    0 <= a < b < j ==> !same_fill(
                        rows[a],
                        rows[b].trading_date,
                        rows[b].broker_org_no,
                        rows[b].order_no,
                        rows[b].fill,
                    ),
            decreases self.fills@.len() - j,
        {
            let mut i: usize = 0;
            let f = &self.fills[j];
            assert(rows[j as int] == f@);
            while i < j
                invariant
                    i <= j < self.fills@.len(),
                    rows == self@.fills,
                    *f == self.fills@[j as int],
                    rows[j as int] == f@,
                    forall|a: int|
                        0 <= a < i ==> !same_fill(
                            #[trigger] rows[a],
                            f@.trading_date,
                            f@.broker_org_no,
                            f@.order_no,
                            f@.fill,
                        ),
                decreases j - i,
            {
                assert(rows[i as int] == self.fills@[i as int]@);
                let b = &self.fills[i];
                if same(b.trading_date.as_str(), f.trading_date.as_str()) && same(
                    b.broker_org_no.as_str(),
                    f.broker_org_no.as_str(),
                ) && same(b.order_no.as_str(), f.order_no.as_str()) && (same(
                    b.fill.fill_key.as_str(),
                    f.fill.fill_key.as_str(),
                ) || match (&b.fill.broker_fill_id, &f.fill.broker_fill_id) {
                    (Some(x), Some(y)) => same(x.as_str(), y.as_str()),
                    _ => false,
                }) {
                    return false;
                }
                i += 1;
            }
            j += 1;
        }
        true
    }
}

impl Ledger {
    /// A book from its tables, where they are in order.
    pub fn restore(tables: LedgerTables) -> (ledger: Option<Ledger>)
        ensures
            match ledger {
                Some(l) => tables@.wf() && l@ == tables@,
                None => !tables@.wf(),
            },
    {
        let apart = keys_differ(&tables.sessions) && keys_differ(&tables.decisions) && keys_differ(
            &tables.orders,
        ) && keys_differ(&tables.notices) && keys_differ(&tables.trades) && keys_differ(
            &tables.state,
        );
        if !(apart && tables.decisions_rise() && tables.trades_rise() && tables.scenarios_fit()
            && tables.fills_fit()) {
            return None;
        }
        Some(
            Ledger {
                sessions: tables.sessions,
                decisions: tables.decisions,
                scenarios: tables.scenarios,
                orders: tables.orders,
                fills: tables.fills,
                notices: tables.notices,
                trades: tables.trades,
                state: tables.state,
                ids: tables.ids,
            },
        )
    }

    pub fn sessions(&self) -> (table: &Vec<SessionRecord>)
        ensures
            rows(table@) == self@.sessions,
    {
        &self.sessions
    }

    pub fn decisions(&self) -> (table: &Vec<StoredDecision>)
        ensures
            rows(table@) == self@.decisions,
    {
        &self.decisions
    }

    pub fn scenarios(&self) -> (table: &Vec<ScenarioRecord>)
        ensures
            rows(table@) == self@.scenarios,
    {
        &self.scenarios
    }

    pub fn orders(&self) -> (table: &Vec<OrderRecord>)
        ensures
            rows(table@) == self@.orders,
    {
        &self.orders
    }

    pub fn fills(&self) -> (table: &Vec<FillRecord>)
        ensures
            rows(table@) == self@.fills,
    {
        &self.fills
    }

    pub fn notices(&self) -> (table: &Vec<NoticeRecord>)
        ensures
            rows(table@) == self@.notices,
    {
        &self.notices
    }

    /// The next number of each table.
    pub fn ids(&self) -> (ids: Ids)
        ensures
            ids == self@.ids,
    {
        self.ids
    }

    pub fn trades(&self) -> (table: &Vec<TradeRecord>)
        ensures
            rows(table@) == self@.trades,
    {
        &self.trades
    }

    pub fn state(&self) -> (table: &Vec<StateEntry>)
        ensures
            rows(table@) == self@.state,
    {
        &self.state
    }
}

} // verus!
