//! What the book says, and what each entry makes of it.

use vstd::prelude::*;

use crate::clock::written_date;
use crate::json::{json_of, repeats_a_name, JsonView};
use crate::ledger::checks::{
    date_fault, first_fault, id_fault, missing, optional_range_fault, range_fault,
    recorded_products_differ, scenarios_fault, KeyView, LedgerFault,
};
use crate::ledger::kinds::{
    LedgerControlMode, LedgerDecisionStatus, LedgerExecutionKind, LedgerOrderStatus, LedgerOrigin,
    LedgerScenarioStatus, LedgerSessionStatus, LedgerSide, LedgerTradeStatus,
};
use crate::ledger::records::{
    AckView, DecisionQuery, DecisionSeed, DecisionView, FillSeed, FillView, FullDecisionView,
    IntentView, NoticeRecord, NoticeSeed, NoticeView, OrderRecord, OrderView, ScenarioSeedView, ScenarioView,
    SessionRecord, SessionSeed, SessionView, StateEntry, StateView, StoredDecision, TradeQuery,
    TradeRecord, TradeSeed, TradeView, UpdateView,
};
use crate::seqs::{filter_mapped, first_where, lemma_first_where, lemma_first_where_bounds};
use crate::tables::{
    holds, keyed, lemma_has, lemma_place, lemma_unique_push, lemma_unique_same, lemma_unique_update,
    place, unique,
};
use crate::text::blank;

verus! {

/// Version of the tables.
pub const SCHEMA_VERSION: i64 = 5;

/// Under which the control mode is stored.
pub const CONTROL_MODE_KEY: &'static str = "control_mode";

/// The number that each table gives next.
#[derive(Debug, Clone, Copy, PartialEq, Eq, Structural)]
pub struct Ids {
    pub session: i64,
    pub decision: i64,
    pub scenario: i64,
    pub order: i64,
    pub fill: i64,
    pub notice: i64,
    pub trade: i64,
}

/// What the book says.
#[verifier::ext_equal]
pub struct LedgerView {
    pub sessions: Seq<SessionView>,
    pub decisions: Seq<DecisionView>,
    pub scenarios: Seq<ScenarioView>,
    pub orders: Seq<OrderView>,
    pub fills: Seq<FillView>,
    pub notices: Seq<NoticeView>,
    pub trades: Seq<TradeView>,
    pub state: Seq<StateView>,
    pub ids: Ids,
}

/// A table that can give no further number.
pub open spec fn full(next: int) -> Option<LedgerFault> {
    if next >= i64::MAX {
        Some(LedgerFault::Sql("database or disk is full"@))
    } else {
        None
    }
}

/// A row that refers to another must find it.
pub open spec fn dangling(found: bool) -> Option<LedgerFault> {
    if found {
        None
    } else {
        Some(LedgerFault::Sql("FOREIGN KEY constraint failed"@))
    }
}

/// A key must be new.
pub open spec fn taken(found: bool, column: Seq<char>) -> Option<LedgerFault> {
    if found {
        Some(LedgerFault::Sql("UNIQUE constraint failed: "@ + column))
    } else {
        None
    }
}

/// The first that is given.
pub open spec fn coalesced(a: Option<Seq<char>>, b: Option<Seq<char>>) -> Option<Seq<char>> {
    if a is Some {
        a
    } else {
        b
    }
}

impl LedgerView {
    pub open spec fn empty() -> LedgerView {
        LedgerView {
            sessions: Seq::empty(),
            decisions: Seq::empty(),
            scenarios: Seq::empty(),
            orders: Seq::empty(),
            fills: Seq::empty(),
            notices: Seq::empty(),
            trades: Seq::empty(),
            state: Seq::empty(),
            ids: Ids {
                session: 1,
                decision: 1,
                scenario: 1,
                order: 1,
                fill: 1,
                notice: 1,
                trade: 1,
            },
        }
    }

    /// Numbers rise along the decisions, and the next is beyond them.
    pub open spec fn decisions_ordered(self) -> bool {
        &&& forall|i: int, j: int|
            #![trigger self.decisions[i], self.decisions[j]]
            0 <= i < j < self.decisions.len() ==> self.decisions[i].id < self.decisions[j].id
        &&& forall|i: int|
            0 <= i < self.decisions.len() ==> (#[trigger] self.decisions[i]).id < self.ids.decision
    }

    /// Numbers rise along the trades, and the next is beyond them.
    pub open spec fn trades_ordered(self) -> bool {
        &&& forall|i: int, j: int|
            #![trigger self.trades[i], self.trades[j]]
            0 <= i < j < self.trades.len() ==> self.trades[i].id < self.trades[j].id
        &&& forall|i: int|
            0 <= i < self.trades.len() ==> (#[trigger] self.trades[i]).id < self.ids.trade
    }

    /// Every scenario belongs to a decision, and no product comes twice in one.
    pub open spec fn scenarios_belong(self) -> bool {
        &&& forall|i: int|
            0 <= i < self.scenarios.len() ==> holds::<StoredDecision>(
                self.decisions,
                (#[trigger] self.scenarios[i]).decision_id,
            )
        &&& forall|i: int, j: int|
            #![trigger self.scenarios[i], self.scenarios[j]]
            0 <= i < j < self.scenarios.len() ==> !(self.scenarios[i].decision_id
                == self.scenarios[j].decision_id && self.scenarios[i].product
                == self.scenarios[j].product)
    }

    /// No fill is booked twice.
    pub open spec fn fills_differ(self) -> bool {
        forall|i: int, j: int|
            #![trigger self.fills[i], self.fills[j]]
            0 <= i < j < self.fills.len() ==> !same_fill(
                self.fills[i],
                self.fills[j].trading_date,
                self.fills[j].broker_org_no,
                self.fills[j].order_no,
                self.fills[j].fill,
            )
    }

    /// What every entry keeps.
    pub open spec fn wf(self) -> bool {
        &&& unique::<SessionRecord>(self.sessions)
        &&& unique::<StoredDecision>(self.decisions)
        &&& unique::<OrderRecord>(self.orders)
        &&& unique::<NoticeRecord>(self.notices)
        &&& unique::<TradeRecord>(self.trades)
        &&& unique::<StateEntry>(self.state)
        &&& self.decisions_ordered()
        &&& self.trades_ordered()
        &&& self.scenarios_belong()
        &&& self.fills_differ()
    }

    /// A reference to a session, where there is one.
    pub open spec fn knows_session(self, session: Option<Seq<char>>) -> bool {
        session is Some ==> holds::<SessionRecord>(self.sessions, session->0)
    }

    pub open spec fn knows_decision(self, decision: Option<Seq<char>>) -> bool {
        decision is Some ==> holds::<StoredDecision>(self.decisions, decision->0)
    }

    pub open spec fn knows_order(self, intent: Option<Seq<char>>) -> bool {
        intent is Some ==> holds::<OrderRecord>(self.orders, intent->0)
    }

    pub open spec fn start_fault(self, session: SessionSeed) -> Option<LedgerFault> {
        first_fault(
            id_fault("session_id"@, session.session_id),
            first_fault(
                optional_range_fault(session.starting_cash, "starting_cash"@),
                first_fault(
                    full(self.ids.session as int),
                    taken(
                        holds::<SessionRecord>(self.sessions, session.session_id),
                        "sessions.session_id"@,
                    ),
                ),
            ),
        )
    }

    /// The book with a session begun.
    pub open spec fn started(self, session: SessionSeed) -> LedgerView {
        LedgerView {
            sessions: self.sessions.push(
                SessionView {
                    id: self.ids.session,
                    session,
                    status: LedgerSessionStatus::Active,
                    ended_at: None,
                },
            ),
            ids: Ids { session: (self.ids.session + 1) as i64, ..self.ids },
            ..self
        }
    }

    pub open spec fn end_fault(self, session_id: Seq<char>, status: LedgerSessionStatus) -> Option<
        LedgerFault,
    > {
        if status == LedgerSessionStatus::Active {
            Some(LedgerFault::InvalidInput("세션 종료 상태로 active를 사용할 수 없습니다"@))
        } else if !holds::<SessionRecord>(self.sessions, session_id) {
            Some(missing("session"@, session_id))
        } else {
            None
        }
    }

    /// The book with a session ended.
    pub open spec fn ended(
        self,
        session_id: Seq<char>,
        status: LedgerSessionStatus,
        ended_at: i64,
    ) -> LedgerView {
        let i = place::<SessionRecord>(self.sessions, session_id);
        LedgerView {
            sessions: self.sessions.update(
                i,
                SessionView { status, ended_at: Some(ended_at), ..self.sessions[i] },
            ),
            ..self
        }
    }
}

/// Whether a booked fill is the given one: under the same order, with the same key, or with the
/// same number of the broker's.
pub open spec fn same_fill(
    booked: FillView,
    trading_date: Seq<char>,
    org_no: Seq<char>,
    order_no: Seq<char>,
    fill: FillSeed,
) -> bool {
    &&& booked.trading_date == trading_date
    &&& booked.broker_org_no == org_no
    &&& booked.order_no == order_no
    &&& booked.fill.fill_key == fill.fill_key || (booked.fill.broker_fill_id is Some
        && booked.fill.broker_fill_id == fill.broker_fill_id)
}

/// The mode that a stored value stands for.
pub open spec fn mode_of(value: JsonView) -> Option<LedgerControlMode> {
    match value {
        JsonView::Text(word) => LedgerControlMode::of_stored(word),
        JsonView::Object(members) => if members.len() == 1 && members[0].1 is Null {
            LedgerControlMode::of_stored(members[0].0)
        } else {
            None
        },
        _ => None,
    }
}

impl LedgerView {
    pub open spec fn state_fault(key: Seq<char>) -> Option<LedgerFault> {
        if blank(key) {
            Some(LedgerFault::InvalidInput("runtime_state 키는 비어 있을 수 없습니다"@))
        } else {
            None
        }
    }

    /// The value stored under a key.
    pub open spec fn state_value(self, key: Seq<char>) -> Option<Seq<char>> {
        let i = place::<StateEntry>(self.state, key);
        if i < self.state.len() {
            Some(self.state[i].value_json)
        } else {
            None
        }
    }

    /// The book with a value stored.
    pub open spec fn stored(self, key: Seq<char>, value_json: Seq<char>, updated_at: i64) -> LedgerView {
        let i = place::<StateEntry>(self.state, key);
        let entry = StateView { key, value_json, updated_at };
        LedgerView {
            state: if i < self.state.len() {
                self.state.update(i, entry)
            } else {
                self.state.push(entry)
            },
            ..self
        }
    }

    /// The book with a value removed.
    pub open spec fn removed(self, key: Seq<char>) -> LedgerView {
        let i = place::<StateEntry>(self.state, key);
        LedgerView {
            state: if i < self.state.len() {
                self.state.remove(i)
            } else {
                self.state
            },
            ..self
        }
    }

    /// Whether a trade belongs to a session that is active.
    pub open spec fn in_active_session(self, trade: TradeView) -> bool {
        &&& trade.session_id is Some
        &&& holds::<SessionRecord>(self.sessions, trade.session_id->0)
        &&& self.sessions[place::<SessionRecord>(self.sessions, trade.session_id->0)].status
            == LedgerSessionStatus::Active
    }

    /// A trade when the runtime is reset: one that is open in an active session is interrupted.
    pub open spec fn reset_trade(self, trade: TradeView, at: i64) -> TradeView {
        if trade.status == LedgerTradeStatus::Open && self.in_active_session(trade) {
            TradeView {
                status: LedgerTradeStatus::Interrupted,
                exit_reason: coalesced(trade.exit_reason, Some("runtime_reset"@)),
                updated_at: at,
                ..trade
            }
        } else {
            trade
        }
    }

    /// A session when the runtime is reset: an active one is interrupted.
    pub open spec fn reset_session(session: SessionView, at: i64) -> SessionView {
        if session.status == LedgerSessionStatus::Active {
            SessionView {
                status: LedgerSessionStatus::Interrupted,
                ended_at: Some(at),
                ..session
            }
        } else {
            session
        }
    }

    /// The book with the runtime reset to manual control. What was recorded stays.
    pub open spec fn reset(self, at: i64, mode_json: Seq<char>) -> LedgerView {
        LedgerView {
            trades: self.trades.map_values(|trade: TradeView| self.reset_trade(trade, at)),
            sessions: self.sessions.map_values(
                |session: SessionView| LedgerView::reset_session(session, at),
            ),
            state: seq![
                StateView { key: CONTROL_MODE_KEY@, value_json: mode_json, updated_at: at },
            ],
            ..self
        }
    }

    pub open spec fn tokens_fault(d: DecisionSeed) -> Option<LedgerFault> {
        first_fault(
            range_fault(d.input_tokens, "input_tokens"@),
            first_fault(
                range_fault(d.cached_input_tokens, "cached_input_tokens"@),
                first_fault(
                    range_fault(d.cache_write_tokens, "cache_write_tokens"@),
                    first_fault(
                        range_fault(d.output_tokens, "output_tokens"@),
                        first_fault(
                            range_fault(d.reasoning_tokens, "reasoning_tokens"@),
                            range_fault(d.latency_ms, "latency_ms"@),
                        ),
                    ),
                ),
            ),
        )
    }

    pub open spec fn prices_fault(s: ScenarioSeedView) -> Option<LedgerFault> {
        first_fault(
            optional_range_fault(s.reference_price, "reference_price"@),
            first_fault(
                optional_range_fault(s.confirmation_price, "confirmation_price"@),
                first_fault(
                    optional_range_fault(s.invalidation_price, "invalidation_price"@),
                    range_fault(s.trigger_price, "trigger_price"@),
                ),
            ),
        )
    }

    pub open spec fn all_prices_fault(scenarios: Seq<ScenarioSeedView>, n: int) -> Option<LedgerFault>
        decreases n,
    {
        if n <= 0 {
            None
        } else {
            first_fault(
                Self::all_prices_fault(scenarios, n - 1),
                Self::prices_fault(scenarios[n - 1]),
            )
        }
    }

    pub open spec fn decision_fault(self, d: DecisionSeed, scenarios: Seq<ScenarioSeedView>) -> Option<
        LedgerFault,
    > {
        first_fault(
            id_fault("decision_id"@, d.decision_id),
            first_fault(
                scenarios_fault(scenarios),
                first_fault(
                    Self::tokens_fault(d),
                    first_fault(
                        first_fault(
                            full(self.ids.decision as int),
                            full(self.ids.scenario + scenarios.len()),
                        ),
                        first_fault(
                            taken(
                                holds::<StoredDecision>(self.decisions, d.decision_id),
                                "llm_decisions.decision_id"@,
                            ),
                            first_fault(
                                dangling(self.knows_session(d.session_id)),
                                Self::all_prices_fault(scenarios, scenarios.len() as int),
                            ),
                        ),
                    ),
                ),
            ),
        )
    }

    /// A scenario as it is first recorded.
    pub open spec fn new_scenario(d: DecisionSeed, s: ScenarioSeedView, id: int) -> ScenarioView {
        ScenarioView {
            id: id as i64,
            decision_id: d.decision_id,
            product: s.product,
            setup_type: s.setup_type,
            reference_price: s.reference_price,
            confirmation_price: s.confirmation_price,
            invalidation_price: s.invalidation_price,
            trigger_price: s.trigger_price,
            target_return_pct: s.target_return_pct,
            rationale_ko: s.rationale_ko,
            status: s.status,
            reference_observed_at: s.reference_observed_at,
            terminal_reason: s.terminal_reason,
            confirmation_started_at: None,
            confirmation_tick_count: 0,
            updated_at: d.created_at,
        }
    }

    /// The book with a decision and its scenarios recorded.
    pub open spec fn decided(self, d: DecisionSeed, scenarios: Seq<ScenarioSeedView>) -> LedgerView {
        LedgerView {
            decisions: self.decisions.push(DecisionView { id: self.ids.decision, decision: d }),
            scenarios: self.scenarios + Seq::new(
                scenarios.len(),
                |i: int| Self::new_scenario(d, scenarios[i], self.ids.scenario + i),
            ),
            ids: Ids {
                decision: (self.ids.decision + 1) as i64,
                scenario: (self.ids.scenario + scenarios.len()) as i64,
                ..self.ids
            },
            ..self
        }
    }

    /// Whether a scenario is the one that an update is for.
    pub open spec fn is_scenario(s: ScenarioView, decision_id: Seq<char>, u: UpdateView) -> bool {
        s.decision_id == decision_id && s.product == u.product
    }

    pub open spec fn has_scenario(self, decision_id: Seq<char>, u: UpdateView) -> bool {
        exists|i: int|
            0 <= i < self.scenarios.len() && Self::is_scenario(
                #[trigger] self.scenarios[i],
                decision_id,
                u,
            )
    }

    /// The first update that finds no scenario.
    pub open spec fn updates_fault(self, decision_id: Seq<char>, updates: Seq<UpdateView>, n: int) -> Option<
        LedgerFault,
    >
        decreases n,
    {
        if n <= 0 {
            None
        } else {
            first_fault(
                self.updates_fault(decision_id, updates, n - 1),
                if self.has_scenario(decision_id, updates[n - 1]) {
                    None
                } else {
                    Some(
                        missing(
                            "scenario"@,
                            decision_id + "/"@ + updates[n - 1].product.stored(),
                        ),
                    )
                },
            )
        }
    }

    pub open spec fn update_fault(
        self,
        decision_id: Seq<char>,
        status: Option<LedgerDecisionStatus>,
        updates: Seq<UpdateView>,
    ) -> Option<LedgerFault> {
        first_fault(
            self.updates_fault(decision_id, updates, updates.len() as int),
            if status is Some && !holds::<StoredDecision>(self.decisions, decision_id) {
                Some(missing("decision"@, decision_id))
            } else {
                None
            },
        )
    }

    /// A scenario after one update.
    pub open spec fn updated_scenario(s: ScenarioView, decision_id: Seq<char>, u: UpdateView) -> ScenarioView {
        if Self::is_scenario(s, decision_id, u) {
            ScenarioView {
                status: u.status,
                confirmation_started_at: u.confirmation_started_at,
                confirmation_tick_count: u.confirmation_tick_count,
                updated_at: u.updated_at,
                terminal_reason: coalesced(u.terminal_reason, s.terminal_reason),
                reference_observed_at: u.reference_observed_at,
                ..s
            }
        } else {
            s
        }
    }

    /// A scenario after the first updates.
    pub open spec fn updated_by(
        s: ScenarioView,
        decision_id: Seq<char>,
        updates: Seq<UpdateView>,
        n: int,
    ) -> ScenarioView
        decreases n,
    {
        if n <= 0 {
            s
        } else {
            Self::updated_scenario(
                Self::updated_by(s, decision_id, updates, n - 1),
                decision_id,
                updates[n - 1],
            )
        }
    }

    /// The book with scenarios and their decision updated together.
    pub open spec fn updated(
        self,
        decision_id: Seq<char>,
        status: Option<LedgerDecisionStatus>,
        error: Option<Seq<char>>,
        updates: Seq<UpdateView>,
    ) -> LedgerView {
        let i = place::<StoredDecision>(self.decisions, decision_id);
        LedgerView {
            scenarios: self.scenarios.map_values(
                |s: ScenarioView|
                    Self::updated_by(s, decision_id, updates, updates.len() as int),
            ),
            decisions: match status {
                Some(status) => self.decisions.update(
                    i,
                    DecisionView {
                        decision: DecisionSeed {
                            status,
                            error: coalesced(error, self.decisions[i].decision.error),
                            ..self.decisions[i].decision
                        },
                        ..self.decisions[i]
                    },
                ),
                None => self.decisions,
            },
            ..self
        }
    }

    /// Why a restart closes a decision.
    pub open spec fn restart_reason(expired: bool) -> Seq<char> {
        if expired {
            "앱 재시작 중 판단 슬롯 만료"@
        } else {
            "앱 재시작으로 메모리 OCO를 복원하지 않음"@
        }
    }

    /// Whether the group of a scenario was armed when the process ended.
    pub open spec fn was_armed(self, s: ScenarioView) -> bool {
        let i = place::<StoredDecision>(self.decisions, s.decision_id);
        &&& s.status == LedgerScenarioStatus::Armed || s.status == LedgerScenarioStatus::Confirming
        &&& i < self.decisions.len()
        &&& self.decisions[i].decision.status == LedgerDecisionStatus::Armed
    }

    /// A scenario after a restart: one that was armed has expired, or is replaced where its slot
    /// still runs.
    pub open spec fn restarted_scenario(self, s: ScenarioView, at: i64) -> ScenarioView {
        if self.was_armed(s) {
            let i = place::<StoredDecision>(self.decisions, s.decision_id);
            let expired = self.decisions[i].decision.expires_at <= at;
            ScenarioView {
                status: if expired {
                    LedgerScenarioStatus::Expired
                } else {
                    LedgerScenarioStatus::Replaced
                },
                confirmation_started_at: None,
                confirmation_tick_count: 0,
                updated_at: at,
                terminal_reason: Some(Self::restart_reason(expired)),
                ..s
            }
        } else {
            s
        }
    }

    /// A decision after a restart: an armed one has expired, or is discarded where its slot still
    /// runs.
    pub open spec fn restarted_decision(d: DecisionView, at: i64) -> DecisionView {
        if d.decision.status == LedgerDecisionStatus::Armed {
            let expired = d.decision.expires_at <= at;
            DecisionView {
                decision: DecisionSeed {
                    status: if expired {
                        LedgerDecisionStatus::Expired
                    } else {
                        LedgerDecisionStatus::Discarded
                    },
                    error: coalesced(d.decision.error, Some(Self::restart_reason(expired))),
                    ..d.decision
                },
                ..d
            }
        } else {
            d
        }
    }

    /// The book after a restart that cannot restore the groups in memory.
    pub open spec fn restarted(self, at: i64) -> LedgerView {
        LedgerView {
            scenarios: self.scenarios.map_values(
                |s: ScenarioView| self.restarted_scenario(s, at),
            ),
            decisions: self.decisions.map_values(
                |d: DecisionView| Self::restarted_decision(d, at),
            ),
            ..self
        }
    }

    /// Armed decisions among the first.
    pub open spec fn armed_count(decisions: Seq<DecisionView>) -> int
        decreases decisions.len(),
    {
        if decisions.len() == 0 {
            0
        } else {
            Self::armed_count(decisions.drop_last()) + (if decisions.last().decision.status
                == LedgerDecisionStatus::Armed {
                1int
            } else {
                0
            })
        }
    }
}

/// The control mode that a stored text stands for.
pub open spec fn stored_mode(json: Seq<char>) -> Option<LedgerControlMode> {
    match json_of(json) {
        Some(value) => if repeats_a_name(json) {
            None
        } else {
            mode_of(value)
        },
        None => None,
    }
}

/// A stored value reads back, and no other value changes.
pub proof fn stored_value_reads_back(book: LedgerView, key: Seq<char>, value_json: Seq<char>, at: i64)
    requires
        book.wf(),
    ensures
        book.stored(key, value_json, at).state_value(key) == Some(value_json),
        forall|other: Seq<char>|
            other != key ==> book.stored(key, value_json, at).state_value(other)
                == #[trigger] book.state_value(other),
        book.stored(key, value_json, at).wf(),
{
    let after = book.stored(key, value_json, at);
    let i = place::<StateEntry>(book.state, key);
    let entry = StateView { key, value_json, updated_at: at };
    lemma_first_where_bounds(book.state, keyed::<StateEntry>(key));
    if i < book.state.len() {
        lemma_unique_update::<StateEntry>(book.state, i, entry);
        lemma_place::<StateEntry>(after.state, key, i);
    } else {
        lemma_unique_push::<StateEntry>(book.state, entry);
        lemma_place::<StateEntry>(after.state, key, book.state.len() as int);
    }
    assert forall|other: Seq<char>| other != key implies after.state_value(other)
        == #[trigger] book.state_value(other) by {
        let p = keyed::<StateEntry>(other);
        let j = place::<StateEntry>(book.state, other);
        lemma_first_where_bounds(book.state, p);
        if j < book.state.len() {
            assert(p(book.state[j]));
            assert(after.state[j] == book.state[j]);
            lemma_place::<StateEntry>(after.state, other, j);
        } else {
            assert forall|k: int| 0 <= k < after.state.len() implies !p(#[trigger] after.state[k]) by {
                if k < book.state.len() && k != i {
                    assert(!p(book.state[k]));
                }
            }
            lemma_first_where(after.state, p, after.state.len() as int);
        }
    }
}

/// A reset keeps every record, under the same number, and leaves nothing active: no session is
/// active, and no open trade belongs to one that was.
pub proof fn reset_keeps_records(book: LedgerView, at: i64, mode_json: Seq<char>)
    ensures
        ({
            let after = book.reset(at, mode_json);
            &&& after.decisions == book.decisions && after.scenarios == book.scenarios
            &&& after.orders == book.orders && after.fills == book.fills
            &&& after.notices == book.notices
            &&& after.trades.len() == book.trades.len() && after.sessions.len()
                == book.sessions.len()
            &&& forall|i: int|
                0 <= i < book.trades.len() ==> (#[trigger] after.trades[i]).id == book.trades[i].id
                    && after.trades[i].trade_id == book.trades[i].trade_id && !(
                after.trades[i].status == LedgerTradeStatus::Open && book.in_active_session(
                    book.trades[i],
                ))
            &&& forall|i: int|
                0 <= i < book.sessions.len() ==> (#[trigger] after.sessions[i]).id
                    == book.sessions[i].id && after.sessions[i].status
                    != LedgerSessionStatus::Active
            &&& forall|key: Seq<char>|
                key != CONTROL_MODE_KEY@ ==> #[trigger] after.state_value(key) is None
        }),
{
    let after = book.reset(at, mode_json);
    assert forall|key: Seq<char>| key != CONTROL_MODE_KEY@ implies #[trigger] after.state_value(
        key,
    ) is None by {
        let p = keyed::<StateEntry>(key);
        assert(!p(after.state[0]));
        lemma_first_where(after.state, p, 1);
    }
}

/// A recorded decision keeps the book in order.
pub proof fn lemma_decided(book: LedgerView, d: DecisionSeed, scenarios: Seq<ScenarioSeedView>)
    requires
        book.wf(),
        book.decision_fault(d, scenarios) is None,
    ensures
        book.decided(d, scenarios).wf(),
{
    let after = book.decided(d, scenarios);
    let row = DecisionView { id: book.ids.decision, decision: d };
    let n = book.scenarios.len() as int;
    lemma_unique_push::<StoredDecision>(book.decisions, row);
    lemma_place::<StoredDecision>(after.decisions, d.decision_id, book.decisions.len() as int);
    assert forall|i: int| 0 <= i < after.scenarios.len() implies holds::<StoredDecision>(
        after.decisions,
        (#[trigger] after.scenarios[i]).decision_id,
    ) by {
        if i < n {
            let id = book.scenarios[i].decision_id;
            let k = place::<StoredDecision>(book.decisions, id);
            lemma_first_where_bounds(book.decisions, keyed::<StoredDecision>(id));
            assert(holds::<StoredDecision>(book.decisions, book.scenarios[i].decision_id));
            lemma_has::<StoredDecision>(after.decisions, id, k);
        }
    }
    assert forall|i: int, j: int|
        #![trigger after.scenarios[i], after.scenarios[j]]
        0 <= i < j < after.scenarios.len() implies !(after.scenarios[i].decision_id
        == after.scenarios[j].decision_id && after.scenarios[i].product
        == after.scenarios[j].product) by {
        if j >= n {
            if i < n {
                assert(holds::<StoredDecision>(book.decisions, book.scenarios[i].decision_id));
            } else {
                recorded_products_differ(scenarios, scenarios.len() as int, i - n, j - n);
            }
        } else {
            assert(after.scenarios[i] == book.scenarios[i]);
            assert(after.scenarios[j] == book.scenarios[j]);
        }
    }
}

pub proof fn lemma_updated_by(
    s: ScenarioView,
    decision_id: Seq<char>,
    updates: Seq<UpdateView>,
    n: int,
)
    ensures
        LedgerView::updated_by(s, decision_id, updates, n).decision_id == s.decision_id,
        LedgerView::updated_by(s, decision_id, updates, n).product == s.product,
        LedgerView::updated_by(s, decision_id, updates, n).id == s.id,
    decreases n,
{
    if n > 0 {
        lemma_updated_by(s, decision_id, updates, n - 1);
    }
}

/// Scenarios that keep their decision and product stay in order.
pub proof fn lemma_scenarios_same(book: LedgerView, after: LedgerView)
    requires
        book.wf(),
        after.scenarios.len() == book.scenarios.len(),
        after.decisions.len() == book.decisions.len(),
        forall|i: int|
            0 <= i < book.scenarios.len() ==> (#[trigger] after.scenarios[i]).decision_id
                == book.scenarios[i].decision_id && after.scenarios[i].product
                == book.scenarios[i].product,
        forall|i: int|
            0 <= i < book.decisions.len() ==> (#[trigger] after.decisions[i]).decision.decision_id
                == book.decisions[i].decision.decision_id,
    ensures
        after.scenarios_belong(),
{
    assert forall|i: int| 0 <= i < after.scenarios.len() implies holds::<StoredDecision>(
        after.decisions,
        (#[trigger] after.scenarios[i]).decision_id,
    ) by {
        let id = book.scenarios[i].decision_id;
        let p = keyed::<StoredDecision>(id);
        let k = place::<StoredDecision>(book.decisions, id);
        assert(holds::<StoredDecision>(book.decisions, book.scenarios[i].decision_id));
        lemma_first_where_bounds(book.decisions, p);
        assert(p(book.decisions[k]));
        assert(after.decisions[k].decision.decision_id == id);
        lemma_has::<StoredDecision>(after.decisions, id, k);
    }
    assert forall|i: int, j: int|
        #![trigger after.scenarios[i], after.scenarios[j]]
        0 <= i < j < after.scenarios.len() implies !(after.scenarios[i].decision_id
        == after.scenarios[j].decision_id && after.scenarios[i].product
        == after.scenarios[j].product) by {
        assert(!(book.scenarios[i].decision_id == book.scenarios[j].decision_id
            && book.scenarios[i].product == book.scenarios[j].product));
    }
}

/// An update keeps the book in order.
pub proof fn lemma_updated(
    book: LedgerView,
    decision_id: Seq<char>,
    status: Option<LedgerDecisionStatus>,
    error: Option<Seq<char>>,
    updates: Seq<UpdateView>,
)
    requires
        book.wf(),
        book.update_fault(decision_id, status, updates) is None,
    ensures
        book.updated(decision_id, status, error, updates).wf(),
{
    let after = book.updated(decision_id, status, error, updates);
    lemma_first_where_bounds(book.decisions, keyed::<StoredDecision>(decision_id));
    assert forall|i: int| 0 <= i < book.scenarios.len() implies (
    #[trigger] after.scenarios[i]).decision_id == book.scenarios[i].decision_id
        && after.scenarios[i].product == book.scenarios[i].product by {
        lemma_updated_by(book.scenarios[i], decision_id, updates, updates.len() as int);
    }
    lemma_unique_same::<StoredDecision>(book.decisions, after.decisions);
    lemma_scenarios_same(book, after);
}

/// A restart keeps the book in order.
pub proof fn lemma_restarted(book: LedgerView, at: i64)
    requires
        book.wf(),
    ensures
        book.restarted(at).wf(),
{
    let after = book.restarted(at);
    lemma_unique_same::<StoredDecision>(book.decisions, after.decisions);
    lemma_scenarios_same(book, after);
}

/// After a restart nothing is armed, and what was not armed is as it was.
pub proof fn restart_leaves_nothing_armed(book: LedgerView, at: i64)
    requires
        book.wf(),
    ensures
        ({
            let after = book.restarted(at);
            &&& after.orders == book.orders && after.fills == book.fills && after.trades
                == book.trades
            &&& forall|i: int|
                0 <= i < book.decisions.len() ==> (
                #[trigger] after.decisions[i]).decision.status != LedgerDecisionStatus::Armed && (
                book.decisions[i].decision.status != LedgerDecisionStatus::Armed
                    ==> after.decisions[i] == book.decisions[i])
            &&& forall|i: int|
                0 <= i < book.scenarios.len() ==> !after.was_armed(#[trigger] after.scenarios[i])
                    && (!book.was_armed(book.scenarios[i]) ==> after.scenarios[i]
                    == book.scenarios[i])
        }),
{
    let after = book.restarted(at);
    assert forall|i: int| 0 <= i < book.scenarios.len() implies !after.was_armed(
        #[trigger] after.scenarios[i],
    ) by {
        let k = place::<StoredDecision>(after.decisions, after.scenarios[i].decision_id);
        lemma_first_where_bounds(
            after.decisions,
            keyed::<StoredDecision>(after.scenarios[i].decision_id),
        );
        if k < after.decisions.len() {
            assert(after.decisions[k].decision.status != LedgerDecisionStatus::Armed);
        }
    }
}

/// Rows that satisfy `keep`, the last first.
pub open spec fn newest<V>(table: Seq<V>, keep: spec_fn(V) -> bool) -> Seq<V>
    decreases table.len(),
{
    if table.len() == 0 {
        Seq::empty()
    } else if keep(table.last()) {
        seq![table.last()] + newest(table.drop_last(), keep)
    } else {
        newest(table.drop_last(), keep)
    }
}

/// An order with another placed by the time it was requested, after those of the same time.
pub open spec fn with_order(sorted: Seq<OrderView>, order: OrderView) -> Seq<OrderView> {
    let i = first_where(sorted, |o: OrderView| o.requested_at > order.requested_at);
    sorted.insert(i, order)
}

/// Orders by the time they were requested, and those of the same time in the order of the book.
pub open spec fn by_request(orders: Seq<OrderView>) -> Seq<OrderView>
    decreases orders.len(),
{
    if orders.len() == 0 {
        Seq::empty()
    } else {
        with_order(by_request(orders.drop_last()), orders.last())
    }
}

/// Nothing but spaces.
pub open spec fn only_spaces(text: Seq<char>) -> bool {
    forall|i: int| 0 <= i < text.len() ==> #[trigger] text[i] == ' '
}

/// A text, or the empty one where there is none.
pub open spec fn text_or_empty(text: Option<Seq<char>>) -> Seq<char> {
    match text {
        Some(text) => text,
        None => Seq::empty(),
    }
}

impl LedgerView {
    pub open spec fn intent_fault(self, i: IntentView) -> Option<LedgerFault> {
        first_fault(
            id_fault("intent_id"@, i.intent_id),
            first_fault(
                range_fault(i.qty, "qty"@),
                first_fault(
                    if i.qty == 0 {
                        Some(LedgerFault::InvalidInput("주문 수량은 1 이상이어야 합니다"@))
                    } else {
                        None
                    },
                    first_fault(
                        optional_range_fault(i.price, "price"@),
                        first_fault(
                            date_fault(i.requested_at as int),
                            first_fault(
                                full(self.ids.order as int),
                                first_fault(
                                    taken(
                                        holds::<OrderRecord>(self.orders, i.intent_id),
                                        "orders.intent_id"@,
                                    ),
                                    dangling(
                                        self.knows_session(i.session_id) && self.knows_decision(
                                            i.decision_id,
                                        ),
                                    ),
                                ),
                            ),
                        ),
                    ),
                ),
            ),
        )
    }

    /// An order as it is first recorded.
    pub open spec fn new_order(i: IntentView, id: i64) -> OrderView {
        OrderView {
            id,
            intent_id: i.intent_id,
            session_id: i.session_id,
            trade_id: i.trade_id,
            decision_id: i.decision_id,
            scenario_product: i.scenario_product,
            broker_order_id: None,
            broker_org_no: None,
            original_order_id: None,
            trading_date: written_date(i.requested_at as int),
            execution_kind: i.execution_kind,
            origin: i.origin,
            code: i.code,
            side: i.side,
            order_type: i.order_type,
            qty: i.qty,
            price: i.price,
            status: LedgerOrderStatus::Intent,
            message: None,
            requested_at: i.requested_at,
            acknowledged_at: None,
            updated_at: i.requested_at,
        }
    }

    /// The book with an order recorded before it is sent.
    pub open spec fn intended(self, i: IntentView) -> LedgerView {
        LedgerView {
            orders: self.orders.push(Self::new_order(i, self.ids.order)),
            ids: Ids { order: (self.ids.order + 1) as i64, ..self.ids },
            ..self
        }
    }

    pub open spec fn order_fault(self, intent_id: Seq<char>) -> Option<LedgerFault> {
        if holds::<OrderRecord>(self.orders, intent_id) {
            None
        } else {
            Some(missing("order"@, intent_id))
        }
    }

    /// The book with the broker's reply to an order.
    pub open spec fn acknowledged(self, intent_id: Seq<char>, ack: AckView) -> LedgerView {
        let i = place::<OrderRecord>(self.orders, intent_id);
        let o = self.orders[i];
        LedgerView {
            orders: self.orders.update(
                i,
                OrderView {
                    broker_order_id: coalesced(ack.broker_order_id, o.broker_order_id),
                    broker_org_no: coalesced(ack.broker_org_no, o.broker_org_no),
                    original_order_id: coalesced(ack.original_order_id, o.original_order_id),
                    status: ack.status,
                    message: coalesced(ack.message, o.message),
                    acknowledged_at: Some(ack.acknowledged_at),
                    updated_at: ack.acknowledged_at,
                    ..o
                },
            ),
            ..self
        }
    }

    /// Whether an order waits to be sent.
    pub open spec fn can_dispatch(self, intent_id: Seq<char>) -> bool {
        holds::<OrderRecord>(self.orders, intent_id) && self.orders[place::<OrderRecord>(
            self.orders,
            intent_id,
        )].status == LedgerOrderStatus::Intent
    }

    /// The book with an order's state changed.
    pub open spec fn with_status(
        self,
        intent_id: Seq<char>,
        status: LedgerOrderStatus,
        message: Option<Seq<char>>,
        at: i64,
    ) -> LedgerView {
        let i = place::<OrderRecord>(self.orders, intent_id);
        LedgerView {
            orders: self.orders.update(
                i,
                OrderView {
                    status,
                    message: coalesced(message, self.orders[i].message),
                    updated_at: at,
                    ..self.orders[i]
                },
            ),
            ..self
        }
    }

    /// Whether an order is the automatic one that a key names.
    pub open spec fn is_auto_order(o: OrderView, key: KeyView) -> bool {
        &&& o.trading_date == key.trading_date
        &&& text_or_empty(o.broker_org_no) == key.org_no
        &&& o.broker_order_id == Some(key.order_no)
        &&& o.origin == LedgerOrigin::Auto
    }

    /// Whether an order of a day has reached the exchange, or may have, and has not been settled.
    pub open spec fn is_unresolved(o: OrderView, trading_date: Seq<char>) -> bool {
        &&& o.trading_date == trading_date
        &&& o.execution_kind == LedgerExecutionKind::Real
        &&& o.status == LedgerOrderStatus::Dispatching || o.status == LedgerOrderStatus::Submitted
            || o.status == LedgerOrderStatus::PartiallyFilled || o.status
            == LedgerOrderStatus::CancelPending || o.status == LedgerOrderStatus::Unknown
    }

    /// The organisation of an order number of a day: that of the order that an intent names, else
    /// the only one that orders of that number have, or none where they have none. Where they have
    /// several it cannot be told.
    pub open spec fn org_of(
        self,
        trading_date: Seq<char>,
        order_no: Seq<char>,
        intent_id: Option<Seq<char>>,
    ) -> Option<Seq<char>> {
        if intent_id is Some && holds::<OrderRecord>(self.orders, intent_id->0) {
            Some(
                text_or_empty(
                    self.orders[place::<OrderRecord>(self.orders, intent_id->0)].broker_org_no,
                ),
            )
        } else {
            let p = numbered(trading_date, order_no);
            let first = first_where(self.orders, p);
            if first >= self.orders.len() {
                Some(Seq::empty())
            } else if forall|i: int|
                0 <= i < self.orders.len() && p(#[trigger] self.orders[i]) ==> text_or_empty(
                    self.orders[i].broker_org_no,
                ) == text_or_empty(self.orders[first].broker_org_no) {
                Some(text_or_empty(self.orders[first].broker_org_no))
            } else {
                None
            }
        }
    }

    pub open spec fn ambiguous(trading_date: Seq<char>, order_no: Seq<char>) -> LedgerFault {
        LedgerFault::InvalidInput(
            "조직번호가 없는 체결의 주문 범위가 모호합니다: "@ + trading_date + "/"@ + order_no,
        )
    }

    /// The organisation under which a fill is booked.
    pub open spec fn fill_org(self, key: KeyView, fill: FillSeed) -> Option<Seq<char>> {
        if key.org_no.len() == 0 {
            self.org_of(key.trading_date, key.order_no, fill.intent_id)
        } else {
            Some(key.org_no)
        }
    }

    /// What is wrong with a fill itself.
    pub open spec fn fill_input_fault(key: KeyView, fill: FillSeed) -> Option<LedgerFault> {
        first_fault(
            key.fault(),
            first_fault(
                id_fault("fill_key"@, fill.fill_key),
                first_fault(
                    date_fault(fill.filled_at as int),
                    first_fault(
                        if written_date(fill.filled_at as int) != key.trading_date {
                            Some(
                                LedgerFault::InvalidInput(
                                    "체결 거래일("@ + written_date(fill.filled_at as int)
                                        + ")과 장부 주문 거래일("@ + key.trading_date
                                        + ")이 다릅니다"@,
                                ),
                            )
                        } else {
                            None
                        },
                        first_fault(
                            if fill.broker_order_id is Some && fill.broker_order_id->0
                                != key.order_no {
                                Some(
                                    LedgerFault::InvalidInput(
                                        "체결 주문번호("@ + fill.broker_order_id->0
                                            + ")와 장부 주문 식별자("@ + key.order_no
                                            + ")가 다릅니다"@,
                                    ),
                                )
                            } else {
                                None
                            },
                            first_fault(
                                range_fault(fill.qty, "fill.qty"@),
                                if fill.qty == 0 {
                                    Some(
                                        LedgerFault::InvalidInput(
                                            "체결 수량은 1 이상이어야 합니다"@,
                                        ),
                                    )
                                } else {
                                    None
                                },
                            ),
                        ),
                    ),
                ),
            ),
        )
    }

    /// Whether a fill is booked already.
    pub open spec fn already_filled(self, key: KeyView, org_no: Seq<char>, fill: FillSeed) -> bool {
        exists|i: int|
            0 <= i < self.fills.len() && same_fill(
                #[trigger] self.fills[i],
                key.trading_date,
                org_no,
                key.order_no,
                fill,
            )
    }

    pub open spec fn fill_fault(self, key: KeyView, fill: FillSeed) -> Option<LedgerFault> {
        first_fault(
            Self::fill_input_fault(key, fill),
            match self.fill_org(key, fill) {
                None => Some(Self::ambiguous(key.trading_date, key.order_no)),
                Some(org) => first_fault(
                    full(self.ids.fill as int),
                    if self.already_filled(key, org, fill) {
                        None
                    } else {
                        dangling(self.knows_order(fill.intent_id))
                    },
                ),
            },
        )
    }

    /// Whether a fill is new.
    pub open spec fn fill_is_new(self, key: KeyView, fill: FillSeed) -> bool {
        self.fill_org(key, fill) is Some && !self.already_filled(
            key,
            self.fill_org(key, fill)->0,
            fill,
        )
    }

    /// The book with a fill booked. One that is booked already only uses up a number.
    pub open spec fn filled(self, key: KeyView, fill: FillSeed) -> LedgerView {
        let ids = Ids { fill: (self.ids.fill + 1) as i64, ..self.ids };
        if self.fill_is_new(key, fill) {
            LedgerView {
                fills: self.fills.push(
                    FillView {
                        id: self.ids.fill,
                        trading_date: key.trading_date,
                        broker_org_no: self.fill_org(key, fill)->0,
                        order_no: key.order_no,
                        fill,
                    },
                ),
                ids,
                ..self
            }
        } else {
            LedgerView { ids, ..self }
        }
    }

    /// The order number of a fill: the broker's, or the fill's own key.
    pub open spec fn order_no_of(fill: FillSeed) -> Seq<char> {
        if fill.broker_order_id is Some && !blank(fill.broker_order_id->0) {
            fill.broker_order_id->0
        } else {
            fill.fill_key
        }
    }

    /// The key of the order of a fill that comes without one.
    pub open spec fn key_of_fill(self, fill: FillSeed) -> KeyView {
        let trading_date = written_date(fill.filled_at as int);
        let order_no = Self::order_no_of(fill);
        KeyView {
            trading_date,
            org_no: self.org_of(trading_date, order_no, fill.intent_id)->0,
            order_no,
        }
    }

    pub open spec fn plain_fill_fault(self, fill: FillSeed) -> Option<LedgerFault> {
        let trading_date = written_date(fill.filled_at as int);
        let order_no = Self::order_no_of(fill);
        first_fault(
            id_fault("fill_key"@, fill.fill_key),
            first_fault(
                date_fault(fill.filled_at as int),
                if self.org_of(trading_date, order_no, fill.intent_id) is None {
                    Some(Self::ambiguous(trading_date, order_no))
                } else {
                    self.fill_fault(self.key_of_fill(fill), fill)
                },
            ),
        )
    }

    pub open spec fn notice_fault(self, n: NoticeSeed) -> Option<LedgerFault> {
        first_fault(
            id_fault("notice_id"@, n.notice_id),
            first_fault(
                id_fault("broker_order_id"@, n.broker_order_id),
                first_fault(
                    id_fault("code"@, n.code),
                    first_fault(
                        date_fault(n.notified_at as int),
                        first_fault(
                            range_fault(n.qty, "fill_notice.qty"@),
                            first_fault(
                                if n.qty == 0 {
                                    Some(
                                        LedgerFault::InvalidInput(
                                            "체결통보 수량은 1 이상이어야 합니다"@,
                                        ),
                                    )
                                } else if n.price is None || n.price->0 == 0 {
                                    Some(
                                        LedgerFault::InvalidInput(
                                            "체결통보 가격은 유효한 양수여야 합니다"@,
                                        ),
                                    )
                                } else {
                                    None
                                },
                                first_fault(
                                    full(self.ids.notice as int),
                                    taken(
                                        holds::<NoticeRecord>(self.notices, n.notice_id),
                                        "fill_notices.notice_id"@,
                                    ),
                                ),
                            ),
                        ),
                    ),
                ),
            ),
        )
    }

    /// The book with a notice kept.
    pub open spec fn noticed(self, n: NoticeSeed) -> LedgerView {
        LedgerView {
            notices: self.notices.push(
                NoticeView {
                    id: self.ids.notice,
                    trading_date: written_date(n.notified_at as int),
                    notice: n,
                },
            ),
            ids: Ids { notice: (self.ids.notice + 1) as i64, ..self.ids },
            ..self
        }
    }

    /// Whether an organisation is known for an order number of a day.
    pub open spec fn is_candidate(
        self,
        org: Seq<char>,
        trading_date: Seq<char>,
        order_no: Seq<char>,
        code: Seq<char>,
        side: LedgerSide,
    ) -> bool {
        &&& !only_spaces(org)
        &&& {
            ||| exists|i: int|
                0 <= i < self.orders.len() && order_org(
                    #[trigger] self.orders[i],
                    trading_date,
                    order_no,
                    code,
                    side,
                ) == Some(org)
            ||| exists|i: int|
                0 <= i < self.fills.len() && filled_org(
                    #[trigger] self.fills[i],
                    trading_date,
                    order_no,
                    code,
                    side,
                ) == Some(org)
        }
    }

    /// Shares booked for an order.
    pub open spec fn filled_qty(fills: Seq<FillView>, key: KeyView) -> int
        decreases fills.len(),
    {
        if fills.len() == 0 {
            0
        } else {
            Self::filled_qty(fills.drop_last(), key) + (if of_order(fills.last(), key) {
                fills.last().fill.qty as int
            } else {
                0
            })
        }
    }

    /// What the shares booked for an order came to, in ten-thousandths of a won.
    pub open spec fn filled_value(fills: Seq<FillView>, key: KeyView) -> int
        decreases fills.len(),
    {
        if fills.len() == 0 {
            0
        } else {
            Self::filled_value(fills.drop_last(), key) + (if of_order(fills.last(), key) {
                fills.last().fill.qty * fills.last().fill.price
            } else {
                0
            })
        }
    }

    pub open spec fn totals_fault(self, key: KeyView) -> Option<LedgerFault> {
        first_fault(
            key.fault(),
            if Self::filled_qty(self.fills, key) > i64::MAX {
                Some(LedgerFault::Sql("integer overflow"@))
            } else {
                None
            },
        )
    }

    pub open spec fn trade_fault(self, t: TradeSeed) -> Option<LedgerFault> {
        first_fault(
            id_fault("trade_id"@, t.trade_id),
            first_fault(
                range_fault(t.entry_qty, "entry_qty"@),
                first_fault(
                    range_fault(t.exit_qty, "exit_qty"@),
                    first_fault(
                        if t.exit_qty > t.entry_qty {
                            Some(
                                LedgerFault::InvalidInput(
                                    "청산 수량은 진입 수량보다 클 수 없습니다"@,
                                ),
                            )
                        } else {
                            None
                        },
                        first_fault(
                            full(self.ids.trade as int),
                            dangling(self.knows_session(t.session_id)),
                        ),
                    ),
                ),
            ),
        )
    }

    pub open spec fn trade_row(t: TradeSeed, id: i64) -> TradeView {
        TradeView {
            id,
            trade_id: t.trade_id,
            session_id: t.session_id,
            execution_kind: t.execution_kind,
            origin: t.origin,
            code: t.code,
            entry_qty: t.entry_qty,
            exit_qty: t.exit_qty,
            entry_avg_price: t.entry_avg_price,
            exit_avg_price: t.exit_avg_price,
            pnl_rate: t.pnl_rate,
            entered_at: t.entered_at,
            exited_at: t.exited_at,
            status: t.status,
            exit_reason: t.exit_reason,
            updated_at: t.updated_at,
        }
    }

    /// The number of a trade: its own, where it is known, or the next.
    pub open spec fn trade_number(self, trade_id: Seq<char>) -> i64 {
        let i = place::<TradeRecord>(self.trades, trade_id);
        if i < self.trades.len() {
            self.trades[i].id
        } else {
            self.ids.trade
        }
    }

    /// The book with a trade as it stands now. A trade that is known keeps its number, and uses up
    /// another.
    pub open spec fn traded(self, t: TradeSeed) -> LedgerView {
        let ids = Ids { trade: (self.ids.trade + 1) as i64, ..self.ids };
        let i = place::<TradeRecord>(self.trades, t.trade_id);
        let row = Self::trade_row(t, self.trade_number(t.trade_id));
        if i < self.trades.len() {
            LedgerView { trades: self.trades.update(i, row), ids, ..self }
        } else {
            LedgerView { trades: self.trades.push(row), ids, ..self }
        }
    }

    /// The trades that a query asks for, from a cursor on, the newest first.
    pub open spec fn listed_trades(self, query: TradeQuery, cursor: Option<i64>) -> Seq<TradeView> {
        newest(self.trades, wanted_trade(query, cursor))
    }

    /// The decisions that a query asks for, from a cursor on, the newest first.
    pub open spec fn listed_decisions(self, query: DecisionQuery, cursor: Option<i64>) -> Seq<
        DecisionView,
    > {
        newest(self.decisions, wanted_decision(query, cursor))
    }

    /// The scenarios of a decision, in the order of the book.
    pub open spec fn scenarios_of(self, decision_id: Seq<char>) -> Seq<ScenarioView> {
        filter_mapped(self.scenarios, of_decision(decision_id))
    }
}

/// Orders of a number on a day.
pub open spec fn numbered(trading_date: Seq<char>, order_no: Seq<char>) -> spec_fn(OrderView) -> bool {
    |o: OrderView| o.trading_date == trading_date && o.broker_order_id == Some(order_no)
}

/// The organisation of an order, where it is of the given day, number, code and side.
pub open spec fn order_org(
    o: OrderView,
    trading_date: Seq<char>,
    order_no: Seq<char>,
    code: Seq<char>,
    side: LedgerSide,
) -> Option<Seq<char>> {
    if o.trading_date == trading_date && o.broker_order_id == Some(order_no) && o.code == code
        && o.side == side {
        o.broker_org_no
    } else {
        None
    }
}

/// The organisation of a fill, where it is of the given day, number, code and side.
pub open spec fn filled_org(
    f: FillView,
    trading_date: Seq<char>,
    order_no: Seq<char>,
    code: Seq<char>,
    side: LedgerSide,
) -> Option<Seq<char>> {
    if f.trading_date == trading_date && f.order_no == order_no && f.fill.code == code
        && f.fill.side == side {
        Some(f.broker_org_no)
    } else {
        None
    }
}

/// Whether a fill belongs to an order.
pub open spec fn of_order(f: FillView, key: KeyView) -> bool {
    f.trading_date == key.trading_date && f.broker_org_no == key.org_no && f.order_no
        == key.order_no
}

/// Rows before a cursor; all of them where there is none but the last that a number can have.
pub open spec fn before_cursor(id: i64, cursor: Option<i64>) -> bool {
    match cursor {
        Some(cursor) => id < cursor,
        None => id < i64::MAX,
    }
}

pub open spec fn wanted_trade(query: TradeQuery, cursor: Option<i64>) -> spec_fn(TradeView) -> bool {
    |t: TradeView|
        {
            &&& before_cursor(t.id, cursor)
            &&& query.execution_kind is Some ==> t.execution_kind == query.execution_kind->0
            &&& query.origin is Some ==> t.origin == query.origin->0
            &&& query.status is Some ==> t.status == query.status->0
        }
}

pub open spec fn wanted_decision(query: DecisionQuery, cursor: Option<i64>) -> spec_fn(
    DecisionView,
) -> bool {
    |d: DecisionView|
        {
            &&& before_cursor(d.id, cursor)
            &&& query.control_mode is Some ==> d.decision.control_mode == query.control_mode->0
            &&& query.status is Some ==> d.decision.status == query.status->0
        }
}

pub open spec fn open_order(trading_date: Seq<char>) -> spec_fn(OrderView) -> Option<OrderView> {
    |o: OrderView|
        if LedgerView::is_unresolved(o, trading_date) {
            Some(o)
        } else {
            None
        }
}

/// Orders of a day that may still trade, in the order of the book.
pub open spec fn open_orders_of(orders: Seq<OrderView>, trading_date: Seq<char>) -> Seq<OrderView> {
    filter_mapped(orders, open_order(trading_date))
}

/// An order is taken to be sent at most once: what was taken cannot be taken again.
pub proof fn dispatch_happens_once(book: LedgerView, intent_id: Seq<char>, at: i64)
    requires
        book.wf(),
        book.can_dispatch(intent_id),
    ensures
        ({
            let after = book.with_status(intent_id, LedgerOrderStatus::Dispatching, None, at);
            !after.can_dispatch(intent_id) && after.wf()
        }),
{
    let after = book.with_status(intent_id, LedgerOrderStatus::Dispatching, None, at);
    let i = place::<OrderRecord>(book.orders, intent_id);
    let p = keyed::<OrderRecord>(intent_id);
    lemma_first_where_bounds(book.orders, p);
    assert(p(book.orders[i]));
    lemma_unique_update::<OrderRecord>(book.orders, i, after.orders[i]);
    lemma_place::<OrderRecord>(after.orders, intent_id, i);
}

/// A fill is booked once: the same fill of the same order, recorded again, is not new and books
/// nothing. Nothing but a want of numbers refuses it.
pub proof fn fill_counts_once(book: LedgerView, key: KeyView, fill: FillSeed)
    requires
        book.wf(),
        book.fill_fault(key, fill) is None,
    ensures
        ({
            let after = book.filled(key, fill);
            &&& after.fill_fault(key, fill) == full(after.ids.fill as int)
            &&& !after.fill_is_new(key, fill)
            &&& after.filled(key, fill) == (LedgerView {
                ids: after.filled(key, fill).ids,
                ..after
            })
        }),
{
    let after = book.filled(key, fill);
    let org = book.fill_org(key, fill)->0;
    if book.fill_is_new(key, fill) {
        let i = book.fills.len() as int;
        assert(same_fill(after.fills[i], key.trading_date, org, key.order_no, fill));
    }
}

/// A new fill adds its shares to those booked for its order, and to no other's.
pub proof fn new_fill_adds_its_shares(book: LedgerView, key: KeyView, fill: FillSeed, other: KeyView)
    requires
        book.fill_is_new(key, fill),
    ensures
        LedgerView::filled_qty(book.filled(key, fill).fills, other) == LedgerView::filled_qty(
            book.fills,
            other,
        ) + (if other == (KeyView { org_no: book.fill_org(key, fill)->0, ..key }) {
            fill.qty as int
        } else {
            0
        }),
{
    let after = book.filled(key, fill);
    assert(after.fills.drop_last() =~= book.fills);
}

pub open spec fn of_decision(decision_id: Seq<char>) -> spec_fn(ScenarioView) -> Option<
    ScenarioView,
> {
    |s: ScenarioView|
        if s.decision_id == decision_id {
            Some(s)
        } else {
            None
        }
}

impl LedgerView {
    /// A decision with its scenarios.
    pub open spec fn with_scenarios(self, row: DecisionView) -> FullDecisionView {
        FullDecisionView { row, scenarios: self.scenarios_of(row.decision.decision_id) }
    }
}

/// The lesser of two lengths.
pub open spec fn shorter(a: int, b: int) -> int {
    if a <= b {
        a
    } else {
        b
    }
}

/// What is listed satisfies the wish, and is in the table.
pub proof fn lemma_newest<V>(table: Seq<V>, keep: spec_fn(V) -> bool)
    ensures
        forall|k: int|
            0 <= k < newest(table, keep).len() ==> keep(#[trigger] newest(table, keep)[k])
                && table.contains(newest(table, keep)[k]),
    decreases table.len(),
{
    if table.len() > 0 {
        let rest = table.drop_last();
        lemma_newest(rest, keep);
        let all = newest(table, keep);
        assert forall|k: int| 0 <= k < all.len() implies keep(#[trigger] all[k])
            && table.contains(all[k]) by {
            let shift = if keep(table.last()) {
                1int
            } else {
                0
            };
            if k >= shift {
                let v = newest(rest, keep)[k - shift];
                assert(all[k] == v);
                assert(rest.contains(v));
                let j = choose|j: int| 0 <= j < rest.len() && rest[j] == v;
                assert(table[j] == v);
            } else {
                assert(all[k] == table.last());
                assert(table[table.len() - 1] == table.last());
            }
        }
    }
}

/// Two wishes that agree on every row of a table list the same.
pub proof fn lemma_newest_same<V>(table: Seq<V>, a: spec_fn(V) -> bool, b: spec_fn(V) -> bool)
    requires
        forall|i: int| 0 <= i < table.len() ==> a(#[trigger] table[i]) == b(table[i]),
    ensures
        newest(table, a) == newest(table, b),
    decreases table.len(),
{
    if table.len() > 0 {
        assert(a(table[table.len() - 1]) == b(table[table.len() - 1]));
        assert forall|i: int| 0 <= i < table.drop_last().len() implies a(
            #[trigger] table.drop_last()[i],
        ) == b(table.drop_last()[i]) by {
            assert(table.drop_last()[i] == table[i]);
        }
        lemma_newest_same(table.drop_last(), a, b);
    }
}

/// In a table whose numbers rise, the rows listed from a listed row on are those listed after it.
pub proof fn lemma_newest_from<V>(
    table: Seq<V>,
    keep: spec_fn(V) -> bool,
    later: spec_fn(V) -> bool,
    id: spec_fn(V) -> i64,
    k: int,
)
    requires
        forall|i: int, j: int|
            #![trigger table[i], table[j]]
            0 <= i < j < table.len() ==> id(table[i]) < id(table[j]),
        0 <= k < newest(table, keep).len(),
        forall|v: V|
            #[trigger]
            later(v) == (keep(v) && id(v) < id(newest(table, keep)[k])),
    ensures
        newest(table, later) == newest(table, keep).skip(k + 1),
    decreases table.len(),
{
    let all = newest(table, keep);
    let rest = table.drop_last();
    let last = table.last();
    let n = table.len() - 1;
    assert forall|i: int, j: int|
        #![trigger rest[i], rest[j]]
        0 <= i < j < rest.len() implies id(rest[i]) < id(rest[j]) by {
        assert(id(table[i]) < id(table[j]));
    }
    if keep(last) && k == 0 {
        assert(all[0] == last);
        assert(!later(last));
        assert forall|i: int| 0 <= i < rest.len() implies later(#[trigger] rest[i]) == keep(rest[i]) by {
            assert(id(table[i]) < id(table[n]));
        }
        lemma_newest_same(rest, later, keep);
        assert(all.skip(1) =~= newest(rest, keep));
    } else {
        let shift = if keep(last) {
            1int
        } else {
            0
        };
        let inner = newest(rest, keep);
        assert(all.skip(shift) =~= inner);
        assert(inner[k - shift] == all[k]);
        lemma_newest_from(rest, keep, later, id, k - shift);
        lemma_newest(rest, keep);
        assert(rest.contains(inner[k - shift]));
        let j = choose|j: int| 0 <= j < rest.len() && rest[j] == inner[k - shift];
        assert(id(table[j]) < id(table[n]));
        assert(!later(last));
        assert(inner.skip(k - shift + 1) =~= all.skip(k + 1));
    }
}

/// Pages of trades follow each other: what is listed from a page's cursor on is what comes after
/// the page, so that the pages together list every trade once.
pub proof fn trade_pages_follow(book: LedgerView, query: TradeQuery, cursor: Option<i64>, size: int)
    requires
        book.wf(),
        0 < size < book.listed_trades(query, cursor).len(),
    ensures
        book.listed_trades(
            query,
            Some(book.listed_trades(query, cursor)[size - 1].id),
        ) == book.listed_trades(query, cursor).skip(size),
{
    let all = book.listed_trades(query, cursor);
    let c = all[size - 1].id;
    let keep = wanted_trade(query, cursor);
    let later = wanted_trade(query, Some(c));
    lemma_newest(book.trades, keep);
    assert(keep(all[size - 1]));
    lemma_newest_from(book.trades, keep, later, |t: TradeView| t.id, size - 1);
}

/// Pages of decisions follow each other in the same way.
pub proof fn decision_pages_follow(
    book: LedgerView,
    query: DecisionQuery,
    cursor: Option<i64>,
    size: int,
)
    requires
        book.wf(),
        0 < size < book.listed_decisions(query, cursor).len(),
    ensures
        book.listed_decisions(
            query,
            Some(book.listed_decisions(query, cursor)[size - 1].id),
        ) == book.listed_decisions(query, cursor).skip(size),
{
    let all = book.listed_decisions(query, cursor);
    let c = all[size - 1].id;
    let keep = wanted_decision(query, cursor);
    let later = wanted_decision(query, Some(c));
    lemma_newest(book.decisions, keep);
    assert(keep(all[size - 1]));
    lemma_newest_from(book.decisions, keep, later, |d: DecisionView| d.id, size - 1);
}

/// Orders whose times of request do not fall.
pub open spec fn requested_in_order(orders: Seq<OrderView>) -> bool {
    forall|i: int, j: int|
        #![trigger orders[i], orders[j]]
        0 <= i <= j < orders.len() ==> orders[i].requested_at <= orders[j].requested_at
}

/// Ordering by request loses and adds no order, and orders them.
pub proof fn by_request_orders(orders: Seq<OrderView>)
    ensures
        requested_in_order(by_request(orders)),
        by_request(orders).to_multiset() =~= orders.to_multiset(),
    decreases orders.len(),
{
    if orders.len() > 0 {
        let rest = orders.drop_last();
        let order = orders.last();
        let sorted = by_request(rest);
        let p = |o: OrderView| o.requested_at > order.requested_at;
        by_request_orders(rest);
        lemma_first_where_bounds(sorted, p);
        let k = first_where(sorted, p);
        let w = by_request(orders);
        assert(w == sorted.insert(k, order));
        assert forall|i: int, j: int|
            #![trigger w[i], w[j]]
            0 <= i <= j < w.len() implies w[i].requested_at <= w[j].requested_at by {
            if i < k {
                assert(!p(sorted[i]));
            }
            if j > k {
                assert(p(sorted[k]));
                assert(sorted[k].requested_at <= sorted[j - 1].requested_at);
            }
            if i < k && j < k {
                assert(sorted[i].requested_at <= sorted[j].requested_at);
            }
            if i > k {
                assert(sorted[i - 1].requested_at <= sorted[j - 1].requested_at);
            }
        }
        broadcast use vstd::seq_lib::group_to_multiset_ensures;

        assert(w.to_multiset() =~= sorted.to_multiset().insert(order));
        assert(rest.push(order) =~= orders);
        assert(orders.to_multiset() =~= rest.to_multiset().insert(order));
    } else {
        assert(orders =~= Seq::empty());
    }
}

/// An order that was recorded is found under its intent, as it was recorded and not yet sent, and
/// every other order is found as before.
pub proof fn recorded_order_reads_back(book: LedgerView, intent: IntentView, other: Seq<char>)
    requires
        book.wf(),
        book.intent_fault(intent) is None,
    ensures
        ({
            let after = book.intended(intent);
            let i = place::<OrderRecord>(after.orders, intent.intent_id);
            let k = place::<OrderRecord>(book.orders, other);
            &&& i < after.orders.len()
            &&& after.orders[i] == LedgerView::new_order(intent, book.ids.order)
            &&& other != intent.intent_id && k < book.orders.len() ==> place::<OrderRecord>(
                after.orders,
                other,
            ) == k && after.orders[k] == book.orders[k]
            &&& other != intent.intent_id && k >= book.orders.len() ==> !holds::<OrderRecord>(
                after.orders,
                other,
            )
        }),
{
    let after = book.intended(intent);
    let row = LedgerView::new_order(intent, book.ids.order);
    lemma_unique_push::<OrderRecord>(book.orders, row);
    lemma_place::<OrderRecord>(after.orders, intent.intent_id, book.orders.len() as int);
    let p = keyed::<OrderRecord>(other);
    let k = place::<OrderRecord>(book.orders, other);
    lemma_first_where_bounds(book.orders, p);
    if other != intent.intent_id {
        assert forall|j: int| 0 <= j < k implies !p(#[trigger] after.orders[j]) by {
            assert(!p(book.orders[j]));
        }
        if k < book.orders.len() {
            assert(p(after.orders[k]));
            lemma_first_where(after.orders, p, k);
        } else {
            assert(!p(row));
            assert forall|j: int| 0 <= j < after.orders.len() implies !p(
                #[trigger] after.orders[j],
            ) by {
                assert(j < k || after.orders[j] == row);
            }
            lemma_first_where(after.orders, p, after.orders.len() as int);
        }
    }
}

/// A trade that was recorded is found as it stands, and a new one is listed first by every query
/// that it satisfies.
pub proof fn recorded_trade_is_listed(book: LedgerView, t: TradeSeed, query: TradeQuery)
    requires
        book.wf(),
        book.trade_fault(t) is None,
    ensures
        ({
            let after = book.traded(t);
            let row = LedgerView::trade_row(t, book.trade_number(t.trade_id));
            let i = place::<TradeRecord>(after.trades, t.trade_id);
            &&& i < after.trades.len() && after.trades[i] == row
            &&& !holds::<TradeRecord>(book.trades, t.trade_id) && wanted_trade(query, None)(row)
                ==> after.listed_trades(query, None) == seq![row] + book.listed_trades(query, None)
        }),
{
    let after = book.traded(t);
    let row = LedgerView::trade_row(t, book.trade_number(t.trade_id));
    let k = place::<TradeRecord>(book.trades, t.trade_id);
    lemma_first_where_bounds(book.trades, keyed::<TradeRecord>(t.trade_id));
    if k < book.trades.len() {
        assert(keyed::<TradeRecord>(t.trade_id)(book.trades[k]));
        lemma_unique_update::<TradeRecord>(book.trades, k, row);
        lemma_place::<TradeRecord>(after.trades, t.trade_id, k);
    } else {
        lemma_unique_push::<TradeRecord>(book.trades, row);
        lemma_place::<TradeRecord>(after.trades, t.trade_id, book.trades.len() as int);
        assert(after.trades.drop_last() =~= book.trades);
        assert(after.trades.last() == row);
    }
}

proof fn lemma_own_scenarios(old: Seq<ScenarioView>, new: Seq<ScenarioView>, decision_id: Seq<char>)
    requires
        forall|i: int| 0 <= i < old.len() ==> (#[trigger] old[i]).decision_id != decision_id,
        forall|i: int| 0 <= i < new.len() ==> (#[trigger] new[i]).decision_id == decision_id,
    ensures
        filter_mapped(old + new, of_decision(decision_id)) == new,
    decreases old.len() + new.len(),
{
    let all = old + new;
    if new.len() > 0 {
        assert(all.drop_last() =~= old + new.drop_last());
        assert(all.last() == new.last());
        lemma_own_scenarios(old, new.drop_last(), decision_id);
        assert(new.drop_last().push(new.last()) =~= new);
    } else if old.len() > 0 {
        assert(all.drop_last() =~= old.drop_last() + new);
        assert(all.last() == old.last());
        lemma_own_scenarios(old.drop_last(), new, decision_id);
    } else {
        assert(all =~= Seq::empty());
        assert(new =~= Seq::empty());
    }
}

/// A decision that was recorded is listed first by every query that it satisfies, with the
/// scenarios that were recorded with it and no others.
pub proof fn recorded_decision_is_listed(
    book: LedgerView,
    d: DecisionSeed,
    scenarios: Seq<ScenarioSeedView>,
    query: DecisionQuery,
)
    requires
        book.wf(),
        book.decision_fault(d, scenarios) is None,
        query.control_mode is Some ==> d.control_mode == query.control_mode->0,
        query.status is Some ==> d.status == query.status->0,
    ensures
        ({
            let after = book.decided(d, scenarios);
            let listed = after.listed_decisions(query, None);
            &&& listed.len() > 0
            &&& listed[0] == (DecisionView { id: book.ids.decision, decision: d })
            &&& after.with_scenarios(listed[0]).scenarios == Seq::new(
                scenarios.len(),
                |i: int| LedgerView::new_scenario(d, scenarios[i], book.ids.scenario + i),
            )
        }),
{
    let after = book.decided(d, scenarios);
    let new = Seq::new(
        scenarios.len(),
        |i: int| LedgerView::new_scenario(d, scenarios[i], book.ids.scenario + i),
    );
    assert(wanted_decision(query, None)(after.decisions.last()));
    assert forall|i: int| 0 <= i < book.scenarios.len() implies (
    #[trigger] book.scenarios[i]).decision_id != d.decision_id by {
        assert(holds::<StoredDecision>(book.decisions, book.scenarios[i].decision_id));
    }
    lemma_own_scenarios(book.scenarios, new, d.decision_id);
}

} // verus!
