//! State of automatic and simulated trading, and who owns the OCO group and the position.
//!
//! The caller holds one lock around the runtime. Each method is one transition under that lock.

use vstd::prelude::*;

use crate::automation::oco::{
    arm_error, lemma_count_bound, seeded, OcoGroup, OcoView, ScenarioSeed, ScenarioState, TickOutcome, TradeTick,
    TriggeredScenario, ValidatedDecision, ValidatedScenario,
};
use crate::text::{blank, copy_text, is_blank, is_text, opt, same};
use crate::types::{
    AutoSymbols, AutomationDecisionStatus, AutomationPhase, AutomationPositionInfo,
    AutomationScenarioInfo, AutomationSnapshot, ControlMode, MarketDayStatus, MarketRegime, Nanos,
    ProductKind, ScenarioStatus,
};
use crate::util::AUTO_PROFIT_GUARD_PCT;

verus! {

/// A position that automation owns.
#[derive(Debug, PartialEq, Eq)]
pub struct OwnedPosition {
    pub product: ProductKind,
    pub code: String,
    pub entry_qty: u64,
    pub qty: u64,
    /// In ten-thousandths of a won.
    pub avg_price: u64,
    /// In ten-thousandths of a won.
    pub last_price: u64,
    /// In billionths of a percent.
    pub target_return_pct: i64,
    pub target_price: u64,
    pub first_fill_at: i64,
    pub exit_deadline: i64,
    pub target_order_no: Option<String>,
    pub target_org_no: Option<String>,
    pub target_intent_id: Option<String>,
    pub exit_order_no: Option<String>,
    pub exit_order_org_no: Option<String>,
    pub exit_intent_id: Option<String>,
    pub exit_requested_at: Option<i64>,
    pub pending_exit_reason: Option<String>,
    pub exit_qty: u64,
    /// What the sales came to, in ten-thousandths of a won.
    pub exit_value: u128,
    pub trade_id: String,
    pub shadow: bool,
    pub profit_guard_armed: bool,
}

/// What a position says.
pub struct PositionView {
    pub product: ProductKind,
    pub code: Seq<char>,
    pub entry_qty: u64,
    pub qty: u64,
    pub avg_price: u64,
    pub last_price: u64,
    pub target_return_pct: i64,
    pub target_price: u64,
    pub first_fill_at: i64,
    pub exit_deadline: i64,
    pub target_order_no: Option<Seq<char>>,
    pub target_org_no: Option<Seq<char>>,
    pub target_intent_id: Option<Seq<char>>,
    pub exit_order_no: Option<Seq<char>>,
    pub exit_order_org_no: Option<Seq<char>>,
    pub exit_intent_id: Option<Seq<char>>,
    pub exit_requested_at: Option<i64>,
    pub pending_exit_reason: Option<Seq<char>>,
    pub exit_qty: u64,
    pub exit_value: u128,
    pub trade_id: Seq<char>,
    pub shadow: bool,
    pub profit_guard_armed: bool,
}

impl View for OwnedPosition {
    type V = PositionView;

    open spec fn view(&self) -> PositionView {
        PositionView {
            product: self.product,
            code: self.code@,
            entry_qty: self.entry_qty,
            qty: self.qty,
            avg_price: self.avg_price,
            last_price: self.last_price,
            target_return_pct: self.target_return_pct,
            target_price: self.target_price,
            first_fill_at: self.first_fill_at,
            exit_deadline: self.exit_deadline,
            target_order_no: opt(self.target_order_no),
            target_org_no: opt(self.target_org_no),
            target_intent_id: opt(self.target_intent_id),
            exit_order_no: opt(self.exit_order_no),
            exit_order_org_no: opt(self.exit_order_org_no),
            exit_intent_id: opt(self.exit_intent_id),
            exit_requested_at: self.exit_requested_at,
            pending_exit_reason: opt(self.pending_exit_reason),
            exit_qty: self.exit_qty,
            exit_value: self.exit_value,
            trade_id: self.trade_id@,
            shadow: self.shadow,
            profit_guard_armed: self.profit_guard_armed,
        }
    }
}

impl Clone for OwnedPosition {
    fn clone(&self) -> (copy: Self)
        ensures
            copy == *self,
    {
        OwnedPosition {
            product: self.product,
            code: self.code.clone(),
            entry_qty: self.entry_qty,
            qty: self.qty,
            avg_price: self.avg_price,
            last_price: self.last_price,
            target_return_pct: self.target_return_pct,
            target_price: self.target_price,
            first_fill_at: self.first_fill_at,
            exit_deadline: self.exit_deadline,
            target_order_no: copy_text(&self.target_order_no),
            target_org_no: copy_text(&self.target_org_no),
            target_intent_id: copy_text(&self.target_intent_id),
            exit_order_no: copy_text(&self.exit_order_no),
            exit_order_org_no: copy_text(&self.exit_order_org_no),
            exit_intent_id: copy_text(&self.exit_intent_id),
            exit_requested_at: self.exit_requested_at,
            pending_exit_reason: copy_text(&self.pending_exit_reason),
            exit_qty: self.exit_qty,
            exit_value: self.exit_value,
            trade_id: self.trade_id.clone(),
            shadow: self.shadow,
            profit_guard_armed: self.profit_guard_armed,
        }
    }
}

/// Mark that is kept from before a real entry order is sent until the target order is owned. The
/// order's own details are in the ledger; here is only what attributes shares to it.
#[derive(Debug, PartialEq, Eq)]
pub struct PendingAutoEntry {
    pub intent_id: String,
    pub trade_id: String,
    pub baseline_qty: u64,
    pub product: ProductKind,
    /// In billionths of a percent.
    pub target_return_pct: i64,
}

/// What a mark says.
pub struct PendingView {
    pub intent_id: Seq<char>,
    pub trade_id: Seq<char>,
    pub baseline_qty: u64,
    pub product: ProductKind,
    pub target_return_pct: i64,
}

impl View for PendingAutoEntry {
    type V = PendingView;

    open spec fn view(&self) -> PendingView {
        PendingView {
            intent_id: self.intent_id@,
            trade_id: self.trade_id@,
            baseline_qty: self.baseline_qty,
            product: self.product,
            target_return_pct: self.target_return_pct,
        }
    }
}

impl Clone for PendingAutoEntry {
    fn clone(&self) -> (copy: Self)
        ensures
            copy == *self,
    {
        PendingAutoEntry {
            intent_id: self.intent_id.clone(),
            trade_id: self.trade_id.clone(),
            baseline_qty: self.baseline_qty,
            product: self.product,
            target_return_pct: self.target_return_pct,
        }
    }
}

/// What a new price did to a position.
#[derive(Debug, Clone, Copy, PartialEq, Eq, Structural)]
pub struct PositionPriceUpdate {
    /// Return on the average price, in billionths of a percent, cut towards zero.
    pub rate: i128,
    pub guard_armed_changed: bool,
    pub profit_guard_triggered: bool,
}

/// What of automation outlives a restart.
#[derive(Debug)]
pub struct PersistedAutomation {
    pub mode: ControlMode,
    pub session_id: Option<String>,
    pub position: Option<OwnedPosition>,
    pub pending_entry: Option<PendingAutoEntry>,
    pub shadow_cash: Option<u64>,
    /// The slot that is due next, so that a restart on a slot does not repeat it.
    pub next_decision_at: Option<i64>,
    /// The slot that was used last, also where the day has no further one.
    pub last_decision_slot: Option<i64>,
}

impl Default for PersistedAutomation {
    fn default() -> (saved: Self)
        ensures
            saved.mode == ControlMode::Manual,
            saved.session_id is None,
            saved.position is None,
            saved.pending_entry is None,
            saved.shadow_cash is None,
            saved.next_decision_at is None,
            saved.last_decision_slot is None,
    {
        PersistedAutomation {
            mode: ControlMode::Manual,
            session_id: None,
            position: None,
            pending_entry: None,
            shadow_cash: None,
            next_decision_at: None,
            last_decision_slot: None,
        }
    }
}

/// What a stored state says.
#[verifier::ext_equal]
pub struct PersistedView {
    pub mode: ControlMode,
    pub session_id: Option<Seq<char>>,
    pub position: Option<PositionView>,
    pub pending_entry: Option<PendingView>,
    pub shadow_cash: Option<u64>,
    pub next_decision_at: Option<i64>,
    pub last_decision_slot: Option<i64>,
}

impl View for PersistedAutomation {
    type V = PersistedView;

    open spec fn view(&self) -> PersistedView {
        PersistedView {
            mode: self.mode,
            session_id: opt(self.session_id),
            position: position_view(self.position),
            pending_entry: pending_view(self.pending_entry),
            shadow_cash: self.shadow_cash,
            next_decision_at: self.next_decision_at,
            last_decision_slot: self.last_decision_slot,
        }
    }
}

pub open spec fn position_view(p: Option<OwnedPosition>) -> Option<PositionView> {
    match p {
        Some(p) => Some(p@),
        None => None,
    }
}

pub open spec fn pending_view(p: Option<PendingAutoEntry>) -> Option<PendingView> {
    match p {
        Some(p) => Some(p@),
        None => None,
    }
}

fn copy_position(p: &Option<OwnedPosition>) -> (copy: Option<OwnedPosition>)
    ensures
        copy == *p,
{
    match p {
        Some(p) => Some(p.clone()),
        None => None,
    }
}

/// How urgent a reason for an exit is.
pub open spec fn reason_rank(reason: Seq<char>) -> u8 {
    if reason == "market_close"@ {
        4
    } else if reason == "stop_loss"@ {
        3
    } else if reason == "profit_guard"@ {
        2
    } else if reason == "max_holding"@ {
        1
    } else {
        0
    }
}

/// How urgent a reason for an exit is: the close, a loss, a guarded profit, the holding time.
pub fn exit_reason_priority(reason: &str) -> (rank: u8)
    ensures
        rank == reason_rank(reason@),
{
    if same(reason, "market_close") {
        4
    } else if same(reason, "stop_loss") {
        3
    } else if same(reason, "profit_guard") {
        2
    } else if same(reason, "max_holding") {
        1
    } else {
        0
    }
}

/// Why a scenario ended without an entry, as the desk and the ledger say it.
pub open spec fn terminal_reason(status: ScenarioStatus) -> Option<Seq<char>> {
    match status {
        ScenarioStatus::Missed => Some(
            "응답 적용 시 확인가를 이미 지나 추격 진입하지 않음"@,
        ),
        ScenarioStatus::Invalidated => Some("무효화가 침범"@),
        ScenarioStatus::Expired => Some("다음 판단 슬롯 만료"@),
        ScenarioStatus::Replaced => Some("새 LLM 판단으로 교체"@),
        ScenarioStatus::CancelledByOco => Some("반대 시나리오 진입 확정"@),
        ScenarioStatus::Invalid => Some("의미 검증 실패"@),
        _ => None,
    }
}

/// Why a scenario ended without an entry.
pub fn scenario_terminal_reason_ko(status: ScenarioStatus) -> (reason: Option<&'static str>)
    ensures
        match reason {
            Some(r) => terminal_reason(status) == Some(r@),
            None => terminal_reason(status) is None,
        },
{
    match status {
        ScenarioStatus::Missed => Some("응답 적용 시 확인가를 이미 지나 추격 진입하지 않음"),
        ScenarioStatus::Invalidated => Some("무효화가 침범"),
        ScenarioStatus::Expired => Some("다음 판단 슬롯 만료"),
        ScenarioStatus::Replaced => Some("새 LLM 판단으로 교체"),
        ScenarioStatus::CancelledByOco => Some("반대 시나리오 진입 확정"),
        ScenarioStatus::Invalid => Some("의미 검증 실패"),
        _ => None,
    }
}

pub open spec fn some_status(g: OcoView, status: ScenarioStatus) -> bool {
    exists|i: int| 0 <= i < g.scenarios.len() && (#[trigger] g.scenarios[i]).status == status
}

pub open spec fn every_status(g: OcoView, status: ScenarioStatus) -> bool {
    forall|i: int| 0 <= i < g.scenarios.len() ==> (#[trigger] g.scenarios[i]).status == status
}

/// What a decision has come to, by its group. A refuted scenario counts before one that expired.
pub open spec fn group_status(g: OcoView) -> AutomationDecisionStatus {
    if g.winner is Some {
        AutomationDecisionStatus::Triggered
    } else if g.has_active() {
        AutomationDecisionStatus::Armed
    } else if some_status(g, ScenarioStatus::Invalidated) {
        AutomationDecisionStatus::Invalidated
    } else if every_status(g, ScenarioStatus::Missed) {
        AutomationDecisionStatus::Missed
    } else if some_status(g, ScenarioStatus::Expired) {
        AutomationDecisionStatus::Expired
    } else if some_status(g, ScenarioStatus::Triggered) {
        AutomationDecisionStatus::Triggered
    } else {
        AutomationDecisionStatus::Replaced
    }
}

fn has_status(group: &OcoGroup, status: ScenarioStatus) -> (yes: bool)
    ensures
        yes == some_status(group@, status),
{
    let states = group.scenarios();
    let mut i: usize = 0;
    while i < states.len()
        invariant
            i <= states@.len(),
            states@ == group@.scenarios,
            forall|j: int| 0 <= j < i ==> (#[trigger] states@[j]).status != status,
        decreases states@.len() - i,
    {
        if states[i].status == status {
            assert(group@.scenarios[i as int].status == status);
            return true;
        }
        i += 1;
    }
    false
}

fn has_only_status(group: &OcoGroup, status: ScenarioStatus) -> (yes: bool)
    ensures
        yes == every_status(group@, status),
{
    let states = group.scenarios();
    let mut i: usize = 0;
    while i < states.len()
        invariant
            i <= states@.len(),
            states@ == group@.scenarios,
            forall|j: int| 0 <= j < i ==> (#[trigger] states@[j]).status == status,
        decreases states@.len() - i,
    {
        if states[i].status != status {
            assert(group@.scenarios[i as int].status != status);
            return false;
        }
        i += 1;
    }
    true
}

/// What a decision has come to, by its group.
pub fn decision_status_for_group(group: &OcoGroup) -> (status: AutomationDecisionStatus)
    ensures
        status == group_status(group@),
{
    if group.winner().is_some() {
        return AutomationDecisionStatus::Triggered;
    }
    if group.has_active_scenarios() {
        return AutomationDecisionStatus::Armed;
    }
    if has_status(group, ScenarioStatus::Invalidated) {
        return AutomationDecisionStatus::Invalidated;
    }
    if has_only_status(group, ScenarioStatus::Missed) {
        return AutomationDecisionStatus::Missed;
    }
    if has_status(group, ScenarioStatus::Expired) {
        return AutomationDecisionStatus::Expired;
    }
    if has_status(group, ScenarioStatus::Triggered) {
        return AutomationDecisionStatus::Triggered;
    }
    AutomationDecisionStatus::Replaced
}

/// What the runtime is made of.
#[verifier::ext_equal]
pub struct RuntimeView {
    pub mode: ControlMode,
    pub phase: AutomationPhase,
    pub revision: u64,
    pub next_decision_at: Option<i64>,
    pub last_decision_slot: Option<i64>,
    pub decision_row_id: Option<i64>,
    pub decision_key: Option<Seq<char>>,
    pub decision_status: Option<AutomationDecisionStatus>,
    pub market_regime: Option<MarketRegime>,
    pub decision_summary_ko: Option<Seq<char>>,
    pub group: Option<OcoView>,
    pub group_expires_epoch: Option<i64>,
    pub position: Option<PositionView>,
    pub pending_entry: Option<PendingView>,
    pub shadow_cash: Option<u64>,
    pub session_id: Option<Seq<char>>,
    pub error: Option<Seq<char>>,
    pub exit_reason: Option<Seq<char>>,
}

impl RuntimeView {
    /// The runtime that starts from a stored state. A position or an entry is reconciled first.
    pub open spec fn restored(saved: PersistedView, next_decision_at: Option<i64>) -> RuntimeView {
        RuntimeView {
            mode: saved.mode,
            phase: if saved.position is Some || saved.pending_entry is Some {
                AutomationPhase::Reconciling
            } else {
                AutomationPhase::Idle
            },
            revision: 0,
            next_decision_at,
            last_decision_slot: saved.last_decision_slot,
            decision_row_id: None,
            decision_key: None,
            decision_status: None,
            market_regime: None,
            decision_summary_ko: None,
            group: None,
            group_expires_epoch: None,
            position: saved.position,
            pending_entry: saved.pending_entry,
            shadow_cash: saved.shadow_cash,
            session_id: saved.session_id,
            error: None,
            exit_reason: match saved.position {
                Some(p) => p.pending_exit_reason,
                None => None,
            },
        }
    }

    /// What is stored of the runtime.
    pub open spec fn stored(self) -> PersistedView {
        PersistedView {
            mode: self.mode,
            session_id: self.session_id,
            position: self.position,
            pending_entry: self.pending_entry,
            shadow_cash: self.shadow_cash,
            next_decision_at: self.next_decision_at,
            last_decision_slot: self.last_decision_slot,
        }
    }

    /// One revision later, as far as revisions count.
    pub open spec fn bumped(self) -> RuntimeView {
        RuntimeView {
            revision: if self.revision < u64::MAX {
                (self.revision + 1) as u64
            } else {
                u64::MAX
            },
            ..self
        }
    }

    /// Without a group: what its decision came to stays.
    pub open spec fn ungrouped(self) -> RuntimeView {
        match self.group {
            Some(g) => RuntimeView {
                decision_status: Some(
                    group_status(
                        if g.winner is None && g.has_active() {
                            g.ended(ScenarioStatus::Replaced)
                        } else {
                            g
                        },
                    ),
                ),
                group: None,
                group_expires_epoch: None,
                ..self
            },
            None => RuntimeView { group_expires_epoch: None, ..self },
        }
    }

    /// Without anything of the last decision but its group.
    pub open spec fn undecided(self) -> RuntimeView {
        RuntimeView {
            decision_row_id: None,
            decision_key: None,
            decision_status: None,
            market_regime: None,
            decision_summary_ko: None,
            ..self
        }
    }

    /// Managing a position where there is one, waiting where there is none.
    pub open spec fn resting_phase(self) -> AutomationPhase {
        if self.position is Some {
            AutomationPhase::Holding
        } else {
            AutomationPhase::Idle
        }
    }

    pub open spec fn may_analyze(self) -> bool {
        &&& self.mode == ControlMode::Auto || self.mode == ControlMode::Shadow
        &&& self.phase == AutomationPhase::Idle || self.phase == AutomationPhase::ArmedOco
        &&& self.position is None
        &&& self.pending_entry is None
    }

    /// The phase can be left for want of a trading day: nothing is owned or on its way.
    pub open spec fn may_pause(self) -> bool {
        &&& self.position is None
        &&& self.pending_entry is None
        &&& self.phase == AutomationPhase::Idle || self.phase == AutomationPhase::Analyzing
            || self.phase == AutomationPhase::ArmedOco || self.phase
            == AutomationPhase::EntryPending
    }

    pub open spec fn paused(self) -> RuntimeView {
        let unscheduled = RuntimeView { next_decision_at: None, ..self };
        let idle = if self.may_pause() {
            RuntimeView { phase: AutomationPhase::Idle, ..unscheduled.ungrouped() }
        } else {
            unscheduled
        };
        if self.pause_changes() {
            idle.bumped()
        } else {
            idle
        }
    }

    pub open spec fn pause_changes(self) -> bool {
        self.next_decision_at is Some || (self.may_pause() && (self.group is Some || self.phase
            != AutomationPhase::Idle))
    }

    /// The target order is in place and owned.
    pub open spec fn target_owned(self) -> bool {
        match self.position {
            Some(p) => !p.shadow && p.target_intent_id is Some && p.target_order_no is Some
                && p.target_org_no is Some,
            None => false,
        }
    }

    /// The scenario is the one that won the group whose entry is pending.
    pub open spec fn entry_matches(self, triggered: TriggeredScenario) -> bool {
        &&& self.phase == AutomationPhase::EntryPending
        &&& self.group is Some
        &&& self.group->0.group_id == triggered.group_id
        &&& self.group->0.revision == triggered.revision
        &&& self.group->0.winner is Some
        &&& self.group->0.winner->0.scenario.product == triggered.scenario.product
    }

    /// Idle, with what the decision of a group came to.
    pub open spec fn idled_by(self, group: OcoView) -> RuntimeView {
        RuntimeView {
            group: Some(group),
            phase: AutomationPhase::Idle,
            decision_status: Some(group_status(group)),
            ..self
        }.bumped()
    }

    /// The runtime after a trade of the underlying share.
    pub open spec fn after_tick(self, tick: TradeTick) -> RuntimeView {
        if self.phase != AutomationPhase::ArmedOco || self.group is None {
            self
        } else {
            let before = self.group->0;
            let group = before.after_tick(tick);
            match before.tick_outcome(tick) {
                TickOutcome::Triggered(_) => RuntimeView {
                    group: Some(group),
                    phase: AutomationPhase::EntryPending,
                    decision_status: Some(AutomationDecisionStatus::Triggered),
                    ..self
                }.bumped(),
                TickOutcome::Expired => self.idled_by(group),
                TickOutcome::Updated => if group.has_active() {
                    RuntimeView { group: Some(group), ..self }
                } else {
                    self.idled_by(group)
                },
                TickOutcome::Ignored => RuntimeView { group: Some(group), ..self },
            }
        }
    }

    /// An exit for `reason`, recorded on the position too.
    pub open spec fn exiting(self, reason: Seq<char>) -> RuntimeView {
        RuntimeView {
            phase: AutomationPhase::ExitPending,
            exit_reason: Some(reason),
            position: match self.position {
                Some(p) => Some(PositionView { pending_exit_reason: Some(reason), ..p }),
                None => None,
            },
            ..self
        }.bumped()
    }

    /// With an exit begun for `reason`, where a position is held, or with that reason for an exit
    /// under way that is less urgent.
    pub open spec fn exit_begun(self, reason: Seq<char>) -> RuntimeView {
        if self.phase == AutomationPhase::ExitPending {
            if reason_rank(reason) > self.exit_rank() {
                RuntimeView { error: None, ..self.exiting(reason) }
            } else {
                self
            }
        } else if self.phase == AutomationPhase::Holding {
            self.exiting(reason)
        } else {
            self
        }
    }

    /// How urgent the exit under way is.
    pub open spec fn exit_rank(self) -> u8 {
        match self.exit_reason {
            Some(r) => reason_rank(r),
            None => 0,
        }
    }
}

/// The state of automation.
#[derive(Debug)]
pub struct AutomationRuntime {
    mode: ControlMode,
    phase: AutomationPhase,
    revision: u64,
    next_decision_at: Option<i64>,
    last_decision_slot: Option<i64>,
    decision_row_id: Option<i64>,
    decision_key: Option<String>,
    decision_status: Option<AutomationDecisionStatus>,
    market_regime: Option<MarketRegime>,
    decision_summary_ko: Option<String>,
    group: Option<OcoGroup>,
    group_expires_epoch: Option<i64>,
    position: Option<OwnedPosition>,
    pending_entry: Option<PendingAutoEntry>,
    shadow_cash: Option<u64>,
    session_id: Option<String>,
    error: Option<String>,
    exit_reason: Option<String>,
}

impl View for AutomationRuntime {
    type V = RuntimeView;

    closed spec fn view(&self) -> RuntimeView {
        RuntimeView {
            mode: self.mode,
            phase: self.phase,
            revision: self.revision,
            next_decision_at: self.next_decision_at,
            last_decision_slot: self.last_decision_slot,
            decision_row_id: self.decision_row_id,
            decision_key: opt(self.decision_key),
            decision_status: self.decision_status,
            market_regime: self.market_regime,
            decision_summary_ko: opt(self.decision_summary_ko),
            group: match self.group {
                Some(g) => Some(g@),
                None => None,
            },
            group_expires_epoch: self.group_expires_epoch,
            position: position_view(self.position),
            pending_entry: pending_view(self.pending_entry),
            shadow_cash: self.shadow_cash,
            session_id: opt(self.session_id),
            error: opt(self.error),
            exit_reason: opt(self.exit_reason),
        }
    }
}

impl AutomationRuntime {
    /// The runtime as it was stored. A position or an entry that was under way is reconciled first.
    pub fn new(saved: PersistedAutomation, next_decision_at: Option<i64>) -> (runtime: Self)
        ensures
            runtime@ == RuntimeView::restored(saved@, next_decision_at),
    {
        let phase = if saved.position.is_some() || saved.pending_entry.is_some() {
            AutomationPhase::Reconciling
        } else {
            AutomationPhase::Idle
        };
        let exit_reason = match &saved.position {
            Some(p) => copy_text(&p.pending_exit_reason),
            None => None,
        };
        AutomationRuntime {
            mode: saved.mode,
            phase,
            revision: 0,
            next_decision_at,
            last_decision_slot: saved.last_decision_slot,
            decision_row_id: None,
            decision_key: None,
            decision_status: None,
            market_regime: None,
            decision_summary_ko: None,
            group: None,
            group_expires_epoch: None,
            position: saved.position,
            pending_entry: saved.pending_entry,
            shadow_cash: saved.shadow_cash,
            session_id: saved.session_id,
            error: None,
            exit_reason,
        }
    }

    pub fn mode(&self) -> (mode: ControlMode)
        ensures
            mode == self@.mode,
    {
        self.mode
    }

    pub fn phase(&self) -> (phase: AutomationPhase)
        ensures
            phase == self@.phase,
    {
        self.phase
    }

    pub fn revision(&self) -> (revision: u64)
        ensures
            revision == self@.revision,
    {
        self.revision
    }

    pub fn next_decision_at(&self) -> (at: Option<i64>)
        ensures
            at == self@.next_decision_at,
    {
        self.next_decision_at
    }

    pub fn last_decision_slot(&self) -> (slot: Option<i64>)
        ensures
            slot == self@.last_decision_slot,
    {
        self.last_decision_slot
    }

    pub fn set_next_decision_at(&mut self, next: Option<i64>)
        ensures
            final(self)@ == (RuntimeView { next_decision_at: next, ..old(self)@ }),
    {
        self.next_decision_at = next;
    }

    fn bump(&mut self)
        ensures
            final(self)@ == old(self)@.bumped(),
            final(self).position == old(self).position,
            final(self).group == old(self).group,
    {
        self.revision = self.revision.saturating_add(1);
    }

    /// While the exchange is closed, or it is not known whether it trades, a new decision is given
    /// up and a position stays owned. An entry task that wakes up later finds another revision and
    /// phase, and stops before it sends an order.
    pub fn pause_for_market_day(&mut self) -> (changed: bool)
        ensures
            changed == old(self)@.pause_changes(),
            final(self)@ == old(self)@.paused(),
    {
        let mut changed = self.next_decision_at.is_some();
        self.next_decision_at = None;
        if self.position.is_none() && self.pending_entry.is_none() && matches!(
            self.phase,
            AutomationPhase::Idle
                | AutomationPhase::Analyzing
                | AutomationPhase::ArmedOco
                | AutomationPhase::EntryPending
        ) {
            if self.group.is_some() || self.phase != AutomationPhase::Idle {
                changed = true;
            }
            self.replace_group();
            self.phase = AutomationPhase::Idle;
        }
        if changed {
            self.bump();
        }
        changed
    }

    pub fn session_id(&self) -> (id: Option<&str>)
        ensures
            match id {
                Some(id) => self@.session_id == Some(id@),
                None => self@.session_id is None,
            },
    {
        match &self.session_id {
            Some(id) => Some(id.as_str()),
            None => None,
        }
    }

    pub fn set_session_id(&mut self, session_id: Option<String>)
        ensures
            final(self)@ == (RuntimeView { session_id: opt(session_id), ..old(self)@ }),
    {
        self.session_id = session_id;
    }

    pub fn decision_key(&self) -> (key: Option<&str>)
        ensures
            match key {
                Some(key) => self@.decision_key == Some(key@),
                None => self@.decision_key is None,
            },
    {
        match &self.decision_key {
            Some(key) => Some(key.as_str()),
            None => None,
        }
    }

    pub fn position(&self) -> (position: Option<&OwnedPosition>)
        ensures
            match position {
                Some(p) => self@.position == Some(p@),
                None => self@.position is None,
            },
    {
        self.position.as_ref()
    }

    pub fn pending_entry(&self) -> (pending: Option<&PendingAutoEntry>)
        ensures
            match pending {
                Some(p) => self@.pending_entry == Some(p@),
                None => self@.pending_entry is None,
            },
    {
        self.pending_entry.as_ref()
    }

    /// Stored before the order's intent. Where only this mark is found and no order, nothing was
    /// sent.
    pub fn set_pending_entry(&mut self, pending: PendingAutoEntry) -> (done: bool)
        ensures
            done == (old(self)@.mode == ControlMode::Auto && old(self)@.phase
                == AutomationPhase::EntryPending && old(self)@.pending_entry is None),
            final(self)@ == (if done {
                (RuntimeView { pending_entry: Some(pending@), ..old(self)@ }).bumped()
            } else {
                old(self)@
            }),
    {
        if self.mode != ControlMode::Auto || self.phase != AutomationPhase::EntryPending
            || self.pending_entry.is_some() {
            return false;
        }
        self.pending_entry = Some(pending);
        self.bump();
        true
    }

    /// Takes what an entry order filled into ownership before the target order is sent. The mark of
    /// the entry may be gone by then; shares that are really held come first.
    pub fn stage_entry_position(&mut self, position: OwnedPosition) -> (done: bool)
        ensures
            done == (old(self)@.mode == ControlMode::Auto && !position.shadow
                && old(self)@.position is None),
            final(self)@ == (if done {
                (RuntimeView {
                    position: Some(position@),
                    phase: AutomationPhase::EntryPending,
                    error: None,
                    ..old(self)@
                }).bumped()
            } else {
                old(self)@
            }),
    {
        if self.mode != ControlMode::Auto || position.shadow || self.position.is_some() {
            return false;
        }
        self.position = Some(position);
        self.phase = AutomationPhase::EntryPending;
        self.error = None;
        self.bump();
        true
    }

    /// Ties the target order's intent to the position before it is sent.
    pub fn set_pending_target_intent(&mut self, intent_id: String) -> (done: bool)
        ensures
            done == (old(self)@.position is Some && old(self)@.pending_entry is Some
                && old(self)@.position->0.target_intent_id is None
                && old(self)@.position->0.target_order_no is None),
            final(self)@ == (if done {
                (RuntimeView {
                    position: Some(
                        PositionView {
                            target_intent_id: Some(intent_id@),
                            ..old(self)@.position->0
                        },
                    ),
                    ..old(self)@
                }).bumped()
            } else {
                old(self)@
            }),
    {
        if self.pending_entry.is_none() {
            return false;
        }
        match &mut self.position {
            None => return false,
            Some(position) => {
                if position.target_intent_id.is_some() || position.target_order_no.is_some() {
                    return false;
                }
                position.target_intent_id = Some(intent_id);
            },
        }
        self.bump();
        true
    }

    /// Only once the target order is owned does the mark go and the position count as held.
    pub fn complete_pending_entry(&mut self) -> (done: bool)
        ensures
            done == (old(self)@.pending_entry is Some && old(self)@.target_owned()),
            final(self)@ == (if done {
                (RuntimeView {
                    pending_entry: None,
                    phase: AutomationPhase::Holding,
                    error: None,
                    ..old(self)@
                }).bumped()
            } else {
                old(self)@
            }),
    {
        let protected = match &self.position {
            Some(p) => !p.shadow && p.target_intent_id.is_some() && p.target_order_no.is_some()
                && p.target_org_no.is_some(),
            None => false,
        };
        if self.pending_entry.is_none() || !protected {
            return false;
        }
        self.pending_entry = None;
        self.phase = AutomationPhase::Holding;
        self.error = None;
        self.bump();
        true
    }

    pub fn clear_pending_entry(&mut self)
        ensures
            final(self)@ == (RuntimeView {
                pending_entry: None,
                phase: old(self)@.resting_phase(),
                ..old(self)@
            }).bumped(),
    {
        self.pending_entry = None;
        self.phase = self.resting();
        self.bump();
    }

    fn resting(&self) -> (phase: AutomationPhase)
        ensures
            phase == self@.resting_phase(),
    {
        if self.position.is_some() {
            AutomationPhase::Holding
        } else {
            AutomationPhase::Idle
        }
    }

    /// Takes up an entry again whose fill was reported after the day had been closed out. No order
    /// is sent for it.
    pub fn restore_pending_entry(&mut self, pending: PendingAutoEntry) -> (done: bool)
        ensures
            done == (old(self)@.mode == ControlMode::Auto && old(self)@.position is None
                && old(self)@.pending_entry is None),
            final(self)@ == (if done {
                (RuntimeView {
                    pending_entry: Some(pending@),
                    phase: AutomationPhase::EntryPending,
                    error: Some(
                        "마감 조정 뒤 지연된 자동 진입 체결을 다시 대조합니다"@,
                    ),
                    ..old(self)@
                }).bumped()
            } else {
                old(self)@
            }),
    {
        if self.mode != ControlMode::Auto || self.position.is_some()
            || self.pending_entry.is_some() {
            return false;
        }
        self.pending_entry = Some(pending);
        self.phase = AutomationPhase::EntryPending;
        self.error = Some(
            "마감 조정 뒤 지연된 자동 진입 체결을 다시 대조합니다".to_owned(),
        );
        self.bump();
        true
    }

    /// Whether a triggered scenario is still the one whose entry is pending.
    pub fn pending_matches(&self, triggered: &TriggeredScenario) -> (yes: bool)
        ensures
            yes == self@.entry_matches(*triggered),
    {
        if self.phase != AutomationPhase::EntryPending {
            return false;
        }
        match &self.group {
            None => false,
            Some(group) => group.group_id() == triggered.group_id && group.revision()
                == triggered.revision && match group.winner() {
                Some(winner) => winner.scenario.product == triggered.scenario.product,
                None => false,
            },
        }
    }

    /// The same, before the group's expiry.
    pub fn pending_matches_at(&self, triggered: &TriggeredScenario, now_epoch: i64) -> (yes: bool)
        ensures
            yes == (self@.entry_matches(*triggered) && self@.group_expires_epoch is Some && now_epoch
                < self@.group_expires_epoch->0),
    {
        self.pending_matches(triggered) && match self.group_expires_epoch {
            Some(expires_at) => now_epoch < expires_at,
            None => false,
        }
    }

    pub fn shadow_cash(&self) -> (cash: Option<u64>)
        ensures
            cash == self@.shadow_cash,
    {
        self.shadow_cash
    }

    pub fn set_shadow_cash(&mut self, cash: Option<u64>)
        ensures
            final(self)@ == (RuntimeView { shadow_cash: cash, ..old(self)@ }),
    {
        self.shadow_cash = cash;
    }

    pub fn sync_position(&mut self, qty: u64, last_price: u64)
        ensures
            final(self)@ == (RuntimeView {
                position: match old(self)@.position {
                    Some(p) => Some(PositionView { qty, last_price, ..p }),
                    None => None,
                },
                ..old(self)@
            }),
    {
        if let Some(position) = &mut self.position {
            position.qty = qty;
            position.last_price = last_price;
        }
    }

    /// Ends the group in memory, and keeps what its decision came to.
    fn replace_group(&mut self)
        ensures
            final(self)@ == old(self)@.ungrouped(),
            final(self).position == old(self).position,
    {
        if let Some(group) = &mut self.group {
            group.replace();
            self.decision_status = Some(decision_status_for_group(group));
        }
        self.group = None;
        self.group_expires_epoch = None;
    }
}

/// The position after a sale of its target or exit order, where the sale is one of those.
pub open spec fn sale_counts(
    p: PositionView,
    code: Seq<char>,
    order_no: Seq<char>,
    qty: u64,
    price: u64,
) -> bool {
    &&& !p.shadow
    &&& p.code == code
    &&& qty != 0
    &&& price != 0
    &&& p.target_order_no == Some(order_no) || p.exit_order_no == Some(order_no)
}

/// Shares of a sale that the position still has.
pub open spec fn sale_qty(p: PositionView, qty: u64) -> u64 {
    if qty <= p.qty {
        qty
    } else {
        p.qty
    }
}

/// The position after such a sale.
pub open spec fn after_sale(p: PositionView, qty: u64, price: u64) -> PositionView {
    let applied = sale_qty(p, qty);
    PositionView {
        qty: (p.qty - applied) as u64,
        exit_qty: if p.exit_qty + applied <= u64::MAX {
            (p.exit_qty + applied) as u64
        } else {
            u64::MAX
        },
        exit_value: if p.exit_value + price * applied <= u128::MAX {
            (p.exit_value + price * applied) as u128
        } else {
            u128::MAX
        },
        last_price: price,
        ..p
    }
}

/// Return of `price` on `avg`, in billionths of a percent, cut towards zero.
pub open spec fn return_rate(avg: int, price: int) -> int {
    if price >= avg {
        (price - avg) * 100_000_000_000 / avg
    } else {
        -((avg - price) * 100_000_000_000 / avg)
    }
}

/// Computes a return.
pub fn rate_of(avg: u64, price: u64) -> (rate: i128)
    requires
        avg > 0,
    ensures
        rate == return_rate(avg as int, price as int),
{
    if price >= avg {
        let gain: i128 = (price - avg) as i128 * 100_000_000_000;
        gain / avg as i128
    } else {
        let loss: i128 = (avg - price) as i128 * 100_000_000_000;
        -(loss / avg as i128)
    }
}

/// The price lies more than `pct` billionths of a percent above the average.
pub open spec fn above(avg: int, price: int, pct: int) -> bool {
    (price - avg) * 100_000_000_000 > pct * avg
}

/// A price counts for the position: it is usable, of its code, and there is an average to measure
/// it by.
pub open spec fn price_counts(p: Option<PositionView>, code: Seq<char>, price: u64) -> bool {
    price != 0 && p is Some && p->0.code == code && p->0.avg_price != 0
}

/// The position after such a price: a target above the guarded return arms the guard once the price
/// has risen above that return.
pub open spec fn after_price(p: PositionView, price: u64) -> PositionView {
    PositionView {
        last_price: price,
        profit_guard_armed: p.profit_guard_armed || (p.target_return_pct > AUTO_PROFIT_GUARD_PCT
            && above(p.avg_price as int, price as int, AUTO_PROFIT_GUARD_PCT as int)),
        ..p
    }
}

/// What such a price reports.
pub open spec fn price_report(p: PositionView, price: u64) -> PositionPriceUpdate {
    let after = after_price(p, price);
    PositionPriceUpdate {
        rate: return_rate(p.avg_price as int, price as int) as i128,
        guard_armed_changed: !p.profit_guard_armed && after.profit_guard_armed,
        profit_guard_triggered: after.profit_guard_armed && !above(
            p.avg_price as int,
            price as int,
            AUTO_PROFIT_GUARD_PCT as int,
        ),
    }
}

/// The target order's number after one was found for its intent.
pub open spec fn bound_target(p: PositionView, order_no: Seq<char>, org_no: Seq<char>) -> Option<
    PositionView,
> {
    if p.target_intent_id is None {
        None
    } else {
        match p.target_order_no {
            Some(existing) => if existing != order_no {
                None
            } else if blank(org_no) {
                Some(p)
            } else {
                Some(PositionView { target_org_no: Some(org_no), ..p })
            },
            None => Some(
                PositionView { target_order_no: Some(order_no), target_org_no: Some(org_no), ..p },
            ),
        }
    }
}

impl RuntimeView {
    /// With the position changed as given, where there is one.
    pub open spec fn with_position(self, f: spec_fn(PositionView) -> PositionView) -> RuntimeView {
        RuntimeView {
            position: match self.position {
                Some(p) => Some(f(p)),
                None => None,
            },
            ..self
        }
    }

    /// After the start: suspended for a reason, or back to what was under way.
    pub open spec fn reconciled(self, suspended: Option<Seq<char>>) -> RuntimeView {
        if suspended is Some {
            RuntimeView { phase: AutomationPhase::Suspended, error: suspended, ..self }
        } else if self.pending_entry is Some {
            RuntimeView { phase: AutomationPhase::EntryPending, error: None, ..self }
        } else if self.phase == AutomationPhase::ExitPending || (self.position is Some
            && self.position->0.exit_intent_id is Some) {
            RuntimeView {
                phase: AutomationPhase::ExitPending,
                exit_reason: if self.position is Some && self.position->0.pending_exit_reason is Some {
                    self.position->0.pending_exit_reason
                } else {
                    Some("startup_reconcile"@)
                },
                error: None,
                ..self
            }
        } else {
            RuntimeView { phase: self.resting_phase(), error: None, ..self }
        }
    }

    /// The group that a decision arms, if it can.
    pub open spec fn armed_group(
        scenarios: Seq<ValidatedScenario>,
        seeds: Seq<ScenarioSeed>,
        last_trade_sequence: Option<u64>,
        group_id: i64,
        revision: u64,
        armed_at: Nanos,
        expires_at: Nanos,
    ) -> OcoView {
        OcoView {
            group_id,
            revision,
            expires_at,
            accept_ticks_after: armed_at,
            scenarios: scenarios.map_values(|s: ValidatedScenario| seeded(s, seeds)),
            last_sequence: last_trade_sequence,
            winner: None,
        }
    }

    /// After a decision of which nothing is to be armed.
    pub open spec fn without_entry(self) -> RuntimeView {
        RuntimeView { group: None, phase: AutomationPhase::Idle, ..self }
    }

    /// After a decision that armed a group.
    pub open spec fn with_group(self, group: OcoView) -> RuntimeView {
        RuntimeView {
            group: Some(group),
            decision_status: if group.has_active() {
                self.decision_status
            } else {
                Some(group_status(group))
            },
            phase: if group.has_active() {
                AutomationPhase::ArmedOco
            } else {
                AutomationPhase::Idle
            },
            error: None,
            ..self
        }
    }

    /// What the close of the day does to a real position: an exit begins, or one under way gets the
    /// close as its reason.
    pub open spec fn closing(self) -> RuntimeView {
        if self.position is None || self.position->0.shadow {
            self
        } else if self.phase == AutomationPhase::ExitPending {
            if self.exit_reason == Some("market_close"@)
                && self.position->0.pending_exit_reason == Some("market_close"@) {
                self
            } else {
                RuntimeView { error: None, ..self.exiting("market_close"@) }
            }
        } else if self.phase == AutomationPhase::Holding || self.phase
            == AutomationPhase::Suspended {
            RuntimeView { error: None, ..self.exiting("market_close"@) }
        } else {
            self
        }
    }
}

impl AutomationRuntime {
    /// Counts a sale of the target or exit order against the position, once. The result says whether
    /// nothing is left of it. A price of zero is none.
    pub fn apply_real_exit_fill(&mut self, code: &str, order_no: &str, qty: u64, price: u64) -> (done:
        bool)
        ensures
            if old(self)@.position is Some && sale_counts(
                old(self)@.position->0,
                code@,
                order_no@,
                qty,
                price,
            ) {
                &&& final(self)@ == (RuntimeView {
                    position: Some(after_sale(old(self)@.position->0, qty, price)),
                    ..old(self)@
                })
                &&& done == (old(self)@.position->0.qty <= qty)
            } else {
                &&& final(self)@ == old(self)@
                &&& !done
            },
    {
        match &mut self.position {
            None => false,
            Some(position) => {
                if position.shadow || !same(position.code.as_str(), code) || qty == 0 || price
                    == 0 {
                    return false;
                }
                if !is_text(&position.target_order_no, order_no) && !is_text(
                    &position.exit_order_no,
                    order_no,
                ) {
                    return false;
                }
                let applied: u64 = if qty <= position.qty {
                    qty
                } else {
                    position.qty
                };
                position.qty = position.qty - applied;
                position.exit_qty = position.exit_qty.saturating_add(applied);
                proof {
                    assert(0 <= price * applied <= 0xffff_ffff_ffff_ffff * 0xffff_ffff_ffff_ffff)
                        by (nonlinear_arith)
                        requires
                            0 <= price <= 0xffff_ffff_ffff_ffff,
                            0 <= applied <= 0xffff_ffff_ffff_ffff,
                    ;
                }
                position.exit_value = position.exit_value.saturating_add(
                    price as u128 * applied as u128,
                );
                position.last_price = price;
                position.qty == 0
            },
        }
    }

    /// What is to be stored.
    pub fn persistable(&self) -> (saved: PersistedAutomation)
        ensures
            saved@ == self@.stored(),
    {
        PersistedAutomation {
            mode: self.mode,
            session_id: copy_text(&self.session_id),
            position: copy_position(&self.position),
            pending_entry: match &self.pending_entry {
                Some(pending) => Some(pending.clone()),
                None => None,
            },
            shadow_cash: self.shadow_cash,
            next_decision_at: self.next_decision_at,
            last_decision_slot: self.last_decision_slot,
        }
    }

    /// Ends the reconciliation at the start.
    pub fn finish_reconcile(&mut self, suspended_reason: Option<String>)
        ensures
            final(self)@ == old(self)@.reconciled(opt(suspended_reason)),
    {
        if suspended_reason.is_some() {
            self.phase = AutomationPhase::Suspended;
            self.error = suspended_reason;
            return;
        }
        self.error = None;
        if self.pending_entry.is_some() {
            self.phase = AutomationPhase::EntryPending;
            return;
        }
        let exit_sent = match &self.position {
            Some(p) => p.exit_intent_id.is_some(),
            None => false,
        };
        if self.phase == AutomationPhase::ExitPending || exit_sent {
            let stored = match &self.position {
                Some(p) => copy_text(&p.pending_exit_reason),
                None => None,
            };
            self.phase = AutomationPhase::ExitPending;
            self.exit_reason = match stored {
                Some(reason) => Some(reason),
                None => Some("startup_reconcile".to_owned()),
            };
            return;
        }
        self.phase = self.resting();
    }

    pub fn suspend(&mut self, reason: &str)
        ensures
            final(self)@ == (RuntimeView {
                phase: AutomationPhase::Suspended,
                error: Some(reason@),
                ..old(self)@.ungrouped()
            }).bumped(),
    {
        self.replace_group();
        self.phase = AutomationPhase::Suspended;
        self.error = Some(reason.to_owned());
        self.bump();
    }

    /// Stops new entries at once where the group could not be closed in the ledger. The group stays
    /// in memory, so that the next attempt knows the states of its scenarios; while suspended, no
    /// trade reaches it.
    pub fn suspend_preserving_group(&mut self, reason: &str)
        ensures
            final(self)@ == (RuntimeView {
                phase: AutomationPhase::Suspended,
                error: Some(reason@),
                ..old(self)@
            }).bumped(),
    {
        self.phase = AutomationPhase::Suspended;
        self.error = Some(reason.to_owned());
        self.bump();
    }

    pub fn has_group_pending_ledger_repair(&self) -> (yes: bool)
        ensures
            yes == (self@.phase == AutomationPhase::Suspended && self@.group is Some),
    {
        self.phase == AutomationPhase::Suspended && self.group.is_some()
    }

    /// Removes the group that was kept, once the ledger has it closed.
    pub fn finish_group_ledger_repair(&mut self) -> (done: bool)
        ensures
            done == (old(self)@.phase == AutomationPhase::Suspended && old(self)@.group is Some),
            final(self)@ == (if done {
                old(self)@.ungrouped().bumped()
            } else {
                old(self)@
            }),
    {
        if !self.has_group_pending_ledger_repair() {
            return false;
        }
        self.replace_group();
        self.bump();
        true
    }

    /// Switches the mode. Handing over shares, or closing out a simulation, comes first and is the
    /// caller's.
    pub fn set_mode_after_cleanup(
        &mut self,
        mode: ControlMode,
        next_decision_at: Option<i64>,
        shadow_cash: Option<u64>,
    )
        ensures
            final(self)@ == (RuntimeView {
                mode,
                next_decision_at,
                pending_entry: None,
                shadow_cash: if mode == ControlMode::Shadow {
                    shadow_cash
                } else {
                    None
                },
                error: None,
                phase: old(self)@.resting_phase(),
                ..old(self)@.ungrouped().undecided()
            }).bumped(),
    {
        self.replace_group();
        self.mode = mode;
        self.next_decision_at = next_decision_at;
        self.forget_decision();
        self.pending_entry = None;
        self.shadow_cash = if mode == ControlMode::Shadow {
            shadow_cash
        } else {
            None
        };
        self.error = None;
        self.phase = self.resting();
        self.bump();
    }

    fn forget_decision(&mut self)
        ensures
            final(self)@ == old(self)@.undecided(),
    {
        self.decision_row_id = None;
        self.decision_key = None;
        self.decision_status = None;
        self.market_regime = None;
        self.decision_summary_ko = None;
    }

    pub fn mark_handoff(&mut self)
        ensures
            final(self)@ == (RuntimeView {
                phase: AutomationPhase::Handoff,
                ..old(self)@.ungrouped()
            }).bumped(),
    {
        self.replace_group();
        self.phase = AutomationPhase::Handoff;
        self.bump();
    }

    /// Gives up the group for a change of mode. The caller has closed it in the ledger first. The
    /// new revision keeps a task that wakes up late from entering in the new mode.
    pub fn clear_group_for_mode_transition(&mut self) -> (done: bool)
        ensures
            done == (old(self)@.group is Some),
            final(self)@ == (if done {
                (RuntimeView {
                    phase: old(self)@.resting_phase(),
                    ..old(self)@.ungrouped()
                }).bumped()
            } else {
                old(self)@
            }),
    {
        if self.group.is_none() {
            return false;
        }
        self.replace_group();
        self.phase = self.resting();
        self.bump();
        true
    }

    /// A handover that failed half way leaves ownership with automation. A position that is left is
    /// managed on; where none is left, no entry may follow.
    pub fn abort_handoff(&mut self, message: &str)
        ensures
            final(self)@ == (RuntimeView {
                phase: if old(self)@.position is Some {
                    AutomationPhase::Holding
                } else {
                    AutomationPhase::Suspended
                },
                error: Some(message@),
                ..old(self)@
            }).bumped(),
    {
        self.phase = if self.position.is_some() {
            AutomationPhase::Holding
        } else {
            AutomationPhase::Suspended
        };
        self.error = Some(message.to_owned());
        self.bump();
    }

    pub fn clear_position_for_handoff(&mut self) -> (position: Option<OwnedPosition>)
        ensures
            position_view(position) == old(self)@.position,
            final(self)@ == (RuntimeView {
                position: None,
                pending_entry: None,
                phase: AutomationPhase::Idle,
                ..old(self)@
            }).bumped(),
    {
        let position = self.position.take();
        self.pending_entry = None;
        self.phase = AutomationPhase::Idle;
        self.bump();
        position
    }

    /// Starts an analysis at a regular slot. What comes of it applies only while the revision that is
    /// returned holds.
    pub fn begin_analysis(&mut self, decision_slot: i64, next_decision_at: Option<i64>) -> (revision:
        Option<u64>)
        ensures
            if old(self)@.may_analyze() {
                &&& final(self)@ == (RuntimeView {
                    phase: AutomationPhase::Analyzing,
                    next_decision_at,
                    last_decision_slot: Some(decision_slot),
                    error: None,
                    ..old(self)@.ungrouped().undecided()
                }).bumped()
                &&& revision == Some(final(self)@.revision)
            } else {
                &&& final(self)@ == old(self)@
                &&& revision is None
            },
    {
        if !self.can_begin_analysis() {
            return None;
        }
        self.replace_group();
        self.bump();
        self.phase = AutomationPhase::Analyzing;
        self.next_decision_at = next_decision_at;
        self.last_decision_slot = Some(decision_slot);
        self.forget_decision();
        self.error = None;
        Some(self.revision)
    }

    pub fn can_begin_analysis(&self) -> (yes: bool)
        ensures
            yes == self@.may_analyze(),
    {
        matches!(self.mode, ControlMode::Auto | ControlMode::Shadow) && matches!(
            self.phase,
            AutomationPhase::Idle | AutomationPhase::ArmedOco
        ) && self.position.is_none() && self.pending_entry.is_none()
    }

    pub fn fail_analysis(&mut self, expected_revision: u64, message: &str) -> (done: bool)
        ensures
            done == (old(self)@.phase == AutomationPhase::Analyzing && old(self)@.revision
                == expected_revision),
            final(self)@ == (if done {
                RuntimeView {
                    phase: AutomationPhase::Idle,
                    decision_status: Some(AutomationDecisionStatus::Error),
                    error: Some(message@),
                    ..old(self)@
                }
            } else {
                old(self)@
            }),
    {
        if self.phase != AutomationPhase::Analyzing || self.revision != expected_revision {
            return false;
        }
        self.phase = AutomationPhase::Idle;
        self.decision_status = Some(AutomationDecisionStatus::Error);
        self.error = Some(message.to_owned());
        true
    }

    /// Applies a decision to the analysis that it was asked for. One that comes too late changes
    /// nothing.
    pub fn accept_decision(
        &mut self,
        expected_revision: u64,
        decision_row_id: i64,
        decision_key: String,
        market_regime: MarketRegime,
        decision_summary_ko: String,
        decision: &ValidatedDecision,
        decision_status: AutomationDecisionStatus,
        seeds: &[ScenarioSeed],
        last_trade_sequence: Option<u64>,
        group_id: i64,
        armed_at: Nanos,
        expires_at: Nanos,
        expires_epoch: i64,
    ) -> (done: bool)
        ensures
            ({
                let before = old(self)@;
                let decided = RuntimeView {
                    decision_row_id: Some(decision_row_id),
                    decision_key: Some(decision_key@),
                    decision_status: Some(decision_status),
                    market_regime: Some(market_regime),
                    decision_summary_ko: Some(decision_summary_ko@),
                    group_expires_epoch: Some(expires_epoch),
                    ..before
                };
                let scenarios = decision.scenarios@;
                if before.phase != AutomationPhase::Analyzing || before.revision
                    != expected_revision {
                    !done && final(self)@ == before
                } else if scenarios.len() == 0 {
                    done && final(self)@ == decided.without_entry()
                } else if arm_error(scenarios, armed_at, expires_at) is Some {
                    !done && final(self)@ == (RuntimeView {
                        decision_status: Some(AutomationDecisionStatus::Error),
                        error: Some("OCO 그룹 생성 실패"@),
                        ..decided.without_entry()
                    })
                } else {
                    done && final(self)@ == decided.with_group(
                        RuntimeView::armed_group(
                            scenarios,
                            seeds@,
                            last_trade_sequence,
                            group_id,
                            expected_revision,
                            armed_at,
                            expires_at,
                        ),
                    )
                }
            }),
    {
        if self.phase != AutomationPhase::Analyzing || self.revision != expected_revision {
            return false;
        }
        self.decision_row_id = Some(decision_row_id);
        self.decision_key = Some(decision_key);
        self.decision_status = Some(decision_status);
        self.market_regime = Some(market_regime);
        self.decision_summary_ko = Some(decision_summary_ko);
        self.group_expires_epoch = Some(expires_epoch);
        if decision.scenarios.len() == 0 {
            self.group = None;
            self.phase = AutomationPhase::Idle;
            return true;
        }
        let group = match OcoGroup::arm_seeded(
            group_id,
            expected_revision,
            decision,
            seeds,
            last_trade_sequence,
            armed_at,
            expires_at,
        ) {
            Ok(group) => group,
            Err(_) => {
                self.group = None;
                self.phase = AutomationPhase::Idle;
                self.decision_status = Some(AutomationDecisionStatus::Error);
                self.error = Some("OCO 그룹 생성 실패".to_owned());
                return false;
            },
        };
        let active = group.has_active_scenarios();
        if !active {
            self.decision_status = Some(decision_status_for_group(&group));
        }
        self.group = Some(group);
        self.phase = if active {
            AutomationPhase::ArmedOco
        } else {
            AutomationPhase::Idle
        };
        self.error = None;
        true
    }

    /// Takes in a trade of the underlying share. The winner and the change of phase are one step.
    pub fn on_trade_tick(&mut self, tick: TradeTick) -> (triggered: Option<TriggeredScenario>)
        ensures
            final(self)@ == old(self)@.after_tick(tick),
            triggered == (if old(self)@.phase == AutomationPhase::ArmedOco
                && old(self)@.group is Some {
                match old(self)@.group->0.tick_outcome(tick) {
                    TickOutcome::Triggered(t) => Some(t),
                    _ => None,
                }
            } else {
                None
            }),
    {
        if self.phase != AutomationPhase::ArmedOco {
            return None;
        }
        let outcome = match &mut self.group {
            None => return None,
            Some(group) => group.on_trade_tick(tick),
        };
        match outcome {
            TickOutcome::Triggered(triggered) => {
                self.phase = AutomationPhase::EntryPending;
                self.decision_status = Some(AutomationDecisionStatus::Triggered);
                self.bump();
                Some(triggered)
            },
            TickOutcome::Expired => {
                self.settle_group();
                None
            },
            TickOutcome::Updated => {
                let active = match &self.group {
                    Some(group) => group.has_active_scenarios(),
                    None => true,
                };
                if !active {
                    self.settle_group();
                }
                None
            },
            TickOutcome::Ignored => None,
        }
    }

    /// Nothing of the group waits any more: idle, with what its decision came to.
    fn settle_group(&mut self)
        requires
            old(self)@.group is Some,
        ensures
            final(self)@ == old(self)@.idled_by(old(self)@.group->0),
    {
        self.phase = AutomationPhase::Idle;
        if let Some(group) = &self.group {
            self.decision_status = Some(decision_status_for_group(group));
        }
        self.bump();
    }

    /// Drops confirmations after a gap in the feed. The result says whether any scenario changed.
    pub fn reset_confirmation(&mut self, at: Nanos) -> (changed: bool)
        ensures
            match old(self)@.group {
                None => !changed && final(self)@ == old(self)@,
                Some(g) => {
                    let group = if g.expires_by(at) {
                        g.ended(ScenarioStatus::Expired)
                    } else if g.winner is Some {
                        g
                    } else {
                        g.reconnected(at)
                    };
                    &&& changed == (g.expires_by(at) || (g.winner is None && (exists|i: int|
                        0 <= i < g.scenarios.len() && (#[trigger] g.scenarios[i]).confirming())))
                    &&& final(self)@ == (if changed && !group.has_active() {
                        old(self)@.idled_by(group)
                    } else {
                        RuntimeView { group: Some(group), ..old(self)@ }
                    })
                },
            },
    {
        let count: usize = match &mut self.group {
            None => return false,
            Some(group) => {
                proof {
                    lemma_count_bound(group@.scenarios, |s: ScenarioState| s.confirming());
                    lemma_count_bound(group@.scenarios, |s: ScenarioState| s.active());
                }
                group.reset_for_reconnect(at)
            },
        };
        let active = match &self.group {
            Some(group) => group.has_active_scenarios(),
            None => true,
        };
        if count > 0 && !active {
            self.settle_group();
        }
        count > 0
    }

    /// Ends the group when its time is up.
    pub fn expire_group(&mut self, at: Nanos) -> (changed: bool)
        ensures
            changed == (old(self)@.group is Some && old(self)@.group->0.expires_by(at)),
            final(self)@ == (if changed {
                old(self)@.idled_by(old(self)@.group->0.ended(ScenarioStatus::Expired))
            } else {
                old(self)@
            }),
    {
        let changed = match &mut self.group {
            Some(group) => group.expire(at),
            None => false,
        };
        if changed {
            self.settle_group();
        }
        changed
    }

    pub fn mark_holding(&mut self, position: OwnedPosition)
        ensures
            final(self)@ == (RuntimeView {
                position: Some(position@),
                phase: AutomationPhase::Holding,
                error: None,
                ..old(self)@
            }).bumped(),
    {
        self.position = Some(position);
        self.phase = AutomationPhase::Holding;
        self.error = None;
        self.bump();
    }

    pub fn entry_failed(&mut self, message: &str)
        ensures
            final(self)@ == (RuntimeView {
                pending_entry: None,
                phase: AutomationPhase::Idle,
                error: Some(message@),
                ..old(self)@
            }).bumped(),
    {
        self.pending_entry = None;
        self.phase = AutomationPhase::Idle;
        self.error = Some(message.to_owned());
        self.bump();
    }

    /// Begins an exit of the position that is held. Where an exit is under way, only a more urgent
    /// reason takes its place, and no second exit begins.
    pub fn begin_exit(&mut self, reason: &str) -> (position: Option<OwnedPosition>)
        ensures
            final(self)@ == old(self)@.exit_begun(reason@),
            if old(self)@.phase == AutomationPhase::Holding {
                position_view(position) == final(self)@.position
            } else {
                position is None
            },
    {
        if self.phase == AutomationPhase::ExitPending {
            let current: u8 = match &self.exit_reason {
                Some(current) => exit_reason_priority(current.as_str()),
                None => 0,
            };
            if exit_reason_priority(reason) > current {
                self.record_exit(reason);
                self.error = None;
            }
            return None;
        }
        if self.phase != AutomationPhase::Holding {
            return None;
        }
        self.record_exit(reason);
        copy_position(&self.position)
    }

    fn record_exit(&mut self, reason: &str)
        ensures
            final(self)@ == old(self)@.exiting(reason@),
    {
        self.phase = AutomationPhase::ExitPending;
        self.exit_reason = Some(reason.to_owned());
        if let Some(position) = &mut self.position {
            position.pending_exit_reason = Some(reason.to_owned());
        }
        self.bump();
    }

    pub fn set_active_exit_order(
        &mut self,
        intent_id: String,
        order_no: Option<String>,
        org_no: Option<String>,
        requested_at: i64,
    ) -> (done: bool)
        ensures
            done == (old(self)@.position is Some),
            final(self)@ == old(self)@.with_position(
                |p: PositionView|
                    PositionView {
                        exit_intent_id: Some(intent_id@),
                        exit_order_no: opt(order_no),
                        exit_order_org_no: opt(org_no),
                        exit_requested_at: Some(requested_at),
                        ..p
                    },
            ),
    {
        match &mut self.position {
            None => false,
            Some(position) => {
                position.exit_intent_id = Some(intent_id);
                position.exit_order_no = order_no;
                position.exit_order_org_no = org_no;
                position.exit_requested_at = Some(requested_at);
                true
            },
        }
    }

    pub fn clear_active_exit_order(&mut self)
        ensures
            final(self)@ == old(self)@.with_position(
                |p: PositionView|
                    PositionView {
                        exit_intent_id: None,
                        exit_order_no: None,
                        exit_order_org_no: None,
                        exit_requested_at: None,
                        ..p
                    },
            ),
    {
        if let Some(position) = &mut self.position {
            position.exit_order_no = None;
            position.exit_order_org_no = None;
            position.exit_intent_id = None;
            position.exit_requested_at = None;
        }
    }

    pub fn clear_target_order(&mut self)
        ensures
            final(self)@ == old(self)@.with_position(
                |p: PositionView|
                    PositionView {
                        target_order_no: None,
                        target_org_no: None,
                        target_intent_id: None,
                        ..p
                    },
            ),
    {
        if let Some(position) = &mut self.position {
            position.target_order_no = None;
            position.target_org_no = None;
            position.target_intent_id = None;
        }
    }

    /// Puts back an intent that was closed before it was sent, where storing that failed.
    pub fn restore_target_intent(&mut self, intent_id: String) -> (done: bool)
        ensures
            done == (old(self)@.position is Some),
            final(self)@ == old(self)@.with_position(
                |p: PositionView|
                    PositionView {
                        target_intent_id: Some(intent_id@),
                        target_order_no: None,
                        target_org_no: None,
                        ..p
                    },
            ),
    {
        match &mut self.position {
            None => false,
            Some(position) => {
                position.target_intent_id = Some(intent_id);
                position.target_order_no = None;
                position.target_org_no = None;
                true
            },
        }
    }

    /// Puts back a target order whose release could not be stored.
    pub fn restore_target_order(&mut self, intent_id: String, order_no: String, org_no: String) -> (done:
        bool)
        ensures
            done == (old(self)@.position is Some),
            final(self)@ == old(self)@.with_position(
                |p: PositionView|
                    PositionView {
                        target_intent_id: Some(intent_id@),
                        target_order_no: Some(order_no@),
                        target_org_no: Some(org_no@),
                        ..p
                    },
            ),
    {
        match &mut self.position {
            None => false,
            Some(position) => {
                position.target_intent_id = Some(intent_id);
                position.target_order_no = Some(order_no);
                position.target_org_no = Some(org_no);
                true
            },
        }
    }

    /// Ties the number of a target order that a query found to its intent. A number that is tied is
    /// not changed; an organisation that is known is kept.
    pub fn bind_target_order(&mut self, order_no: String, org_no: String) -> (done: bool)
        ensures
            ({
                let bound = match old(self)@.position {
                    Some(p) => bound_target(p, order_no@, org_no@),
                    None => None,
                };
                &&& done == (bound is Some)
                &&& final(self)@ == (if done {
                    RuntimeView { position: bound, ..old(self)@ }
                } else {
                    old(self)@
                })
            }),
    {
        match &mut self.position {
            None => false,
            Some(position) => {
                if position.target_intent_id.is_none() {
                    return false;
                }
                let known = position.target_order_no.is_some();
                if known {
                    if !is_text(&position.target_order_no, order_no.as_str()) {
                        return false;
                    }
                    if !is_blank(org_no.as_str()) {
                        position.target_org_no = Some(org_no);
                    }
                } else {
                    position.target_order_no = Some(order_no);
                    position.target_org_no = Some(org_no);
                }
                true
            },
        }
    }

    /// Begins the exit at the close, also where a mismatch at the start had suspended automation. An
    /// exit that is under way goes on under its order, with the close as its reason.
    pub fn begin_market_close_exit(&mut self) -> (position: Option<OwnedPosition>)
        ensures
            final(self)@ == old(self)@.closing(),
            if old(self)@.position is Some && !old(self)@.position->0.shadow && (old(self)@.phase
                == AutomationPhase::Holding || old(self)@.phase == AutomationPhase::Suspended) {
                position_view(position) == final(self)@.position
            } else {
                position is None
            },
    {
        let owned = match &self.position {
            Some(position) => !position.shadow,
            None => false,
        };
        if !owned {
            return None;
        }
        if self.phase == AutomationPhase::ExitPending {
            let recorded = match &self.position {
                Some(position) => is_text(&position.pending_exit_reason, "market_close"),
                None => false,
            };
            if !is_text(&self.exit_reason, "market_close") || !recorded {
                self.record_exit("market_close");
                self.error = None;
            }
            return None;
        }
        if self.phase != AutomationPhase::Holding && self.phase != AutomationPhase::Suspended {
            return None;
        }
        self.record_exit("market_close");
        self.error = None;
        copy_position(&self.position)
    }

    pub fn exit_reason(&self) -> (reason: Option<&str>)
        ensures
            match reason {
                Some(r) => self@.exit_reason == Some(r@),
                None => self@.exit_reason is None,
            },
    {
        match &self.exit_reason {
            Some(reason) => Some(reason.as_str()),
            None => None,
        }
    }

    pub fn exit_waiting(&mut self, message: &str)
        ensures
            final(self)@ == (RuntimeView {
                phase: AutomationPhase::ExitPending,
                error: Some(message@),
                ..old(self)@
            }).bumped(),
    {
        self.phase = AutomationPhase::ExitPending;
        self.error = Some(message.to_owned());
        self.bump();
    }

    pub fn complete_exit(&mut self) -> (position: Option<OwnedPosition>)
        ensures
            position_view(position) == old(self)@.position,
            final(self)@ == (RuntimeView {
                position: None,
                pending_entry: None,
                phase: AutomationPhase::Idle,
                error: None,
                exit_reason: None,
                ..old(self)@
            }).bumped(),
    {
        let position = self.position.take();
        self.pending_entry = None;
        self.phase = AutomationPhase::Idle;
        self.error = None;
        self.exit_reason = None;
        self.bump();
        position
    }

    pub fn owns_real_code(&self, code: &str) -> (yes: bool)
        ensures
            yes == (self@.position is Some && !self@.position->0.shadow && self@.position->0.code
                == code@),
    {
        match &self.position {
            Some(position) => !position.shadow && same(position.code.as_str(), code),
            None => false,
        }
    }

    /// Takes in a price of the ETF held. A price that cannot be used, written as zero, changes
    /// nothing and reports nothing, so that it can trigger neither a loss nor a guard.
    pub fn update_position_price(&mut self, code: &str, price: u64) -> (update: Option<
        PositionPriceUpdate,
    >)
        ensures
            if price_counts(old(self)@.position, code@, price) {
                &&& update == Some(price_report(old(self)@.position->0, price))
                &&& final(self)@ == (RuntimeView {
                    position: Some(after_price(old(self)@.position->0, price)),
                    ..old(self)@
                })
            } else {
                &&& update is None
                &&& final(self)@ == old(self)@
            },
    {
        if price == 0 {
            return None;
        }
        match &mut self.position {
            None => None,
            Some(position) => {
                if !same(position.code.as_str(), code) || position.avg_price == 0 {
                    return None;
                }
                position.last_price = price;
                let rate: i128 = rate_of(position.avg_price, price);
                let guarded: i128 = AUTO_PROFIT_GUARD_PCT as i128 * position.avg_price as i128;
                let rise: i128 = (price as i128 - position.avg_price as i128) * 100_000_000_000;
                let was_armed = position.profit_guard_armed;
                if position.target_return_pct > AUTO_PROFIT_GUARD_PCT && rise > guarded {
                    position.profit_guard_armed = true;
                }
                Some(
                    PositionPriceUpdate {
                        rate,
                        guard_armed_changed: !was_armed && position.profit_guard_armed,
                        profit_guard_triggered: position.profit_guard_armed && rise <= guarded,
                    },
                )
            },
        }
    }
}

/// The number of a scenario: ten times its group's, and its place.
pub open spec fn scenario_id(group_id: i64, index: int) -> int {
    let base = if group_id * 10 > i64::MAX {
        i64::MAX as int
    } else if group_id * 10 < i64::MIN {
        i64::MIN as int
    } else {
        group_id * 10
    };
    if base + index > i64::MAX {
        i64::MAX as int
    } else {
        base + index
    }
}

fn scenario_number(group_id: i64, index: usize) -> (id: i64)
    ensures
        id == scenario_id(group_id, index as int),
{
    let tens: i128 = group_id as i128 * 10;
    let base: i128 = if tens > i64::MAX as i128 {
        i64::MAX as i128
    } else if tens < i64::MIN as i128 {
        i64::MIN as i128
    } else {
        tens
    };
    let id: i128 = base + index as i128;
    if id > i64::MAX as i128 {
        i64::MAX
    } else {
        id as i64
    }
}

/// The information shows the scenario at `index` of a group.
pub open spec fn shows_scenario(
    info: AutomationScenarioInfo,
    group: OcoView,
    index: int,
    symbols: AutoSymbols,
    now: Nanos,
) -> bool {
    let state = group.scenarios[index];
    &&& info.id == scenario_id(group.group_id, index)
    &&& info.product == state.scenario.product
    &&& info.code@ == state.scenario.product.code_spec(symbols)
    &&& info.trigger_price == state.scenario.trigger_price
    &&& info.target_return_pct == state.scenario.target_return_pct
    &&& info.setup == state.scenario.setup
    &&& info.reference_observed_at == state.reference_observed_at
    &&& info.status == state.status
    &&& opt(info.terminal_reason) == terminal_reason(state.status)
    &&& info.confirming_ticks == state.confirming_ticks
    &&& info.confirming_elapsed_ms == group.confirming_span(state.scenario.product, now) / 1_000_000
}

/// The information shows a position.
pub open spec fn shows_position(info: AutomationPositionInfo, p: PositionView) -> bool {
    &&& info.product == p.product
    &&& info.code@ == p.code
    &&& info.qty == p.qty
    &&& info.avg_price == p.avg_price
    &&& info.pnl_rate == (if p.avg_price > 0 && p.last_price > 0 {
        return_rate(p.avg_price as int, p.last_price as int)
    } else {
        0
    })
    &&& info.target_return_pct == p.target_return_pct
    &&& info.target_price == p.target_price
    &&& info.exit_deadline == p.exit_deadline
    &&& info.shadow == p.shadow
    &&& info.profit_guard_armed == p.profit_guard_armed
}

fn scenario_infos(group: &OcoGroup, symbols: &AutoSymbols, now: Nanos) -> (infos: Vec<
    AutomationScenarioInfo,
>)
    ensures
        infos@.len() == group@.scenarios.len(),
        forall|i: int|
            0 <= i < infos@.len() ==> shows_scenario(
                #[trigger] infos@[i],
                group@,
                i,
                *symbols,
                now,
            ),
{
    let states = group.scenarios();
    let mut infos: Vec<AutomationScenarioInfo> = Vec::new();
    let mut i: usize = 0;
    while i < states.len()
        invariant
            i <= states@.len(),
            i == infos@.len(),
            states@ == group@.scenarios,
            forall|j: int|
                0 <= j < i ==> shows_scenario(#[trigger] infos@[j], group@, j, *symbols, now),
        decreases states@.len() - i,
    {
        let state = &states[i];
        let elapsed: u128 = group.confirming_elapsed(state.scenario.product, now);
        let elapsed_ms: u64 = (elapsed / 1_000_000) as u64;
        infos.push(
            AutomationScenarioInfo {
                id: scenario_number(group.group_id(), i),
                product: state.scenario.product,
                code: state.scenario.product.code(symbols).to_owned(),
                trigger_price: state.scenario.trigger_price,
                target_return_pct: state.scenario.target_return_pct,
                setup: match &state.scenario.setup {
                    Some(setup) => Some(setup.clone()),
                    None => None,
                },
                reference_observed_at: state.reference_observed_at,
                status: state.status,
                terminal_reason: match scenario_terminal_reason_ko(state.status) {
                    Some(reason) => Some(reason.to_owned()),
                    None => None,
                },
                confirming_ticks: state.confirming_ticks as u32,
                confirming_elapsed_ms: elapsed_ms,
            },
        );
        i += 1;
    }
    infos
}

impl AutomationRuntime {
    /// All that the desk shows of automation at a moment.
    pub fn snapshot(
        &self,
        runtime_id: &str,
        runtime_generation: u64,
        symbols: &AutoSymbols,
        now: Nanos,
        market_day_status: MarketDayStatus,
        market_day_message: Option<String>,
    ) -> (snapshot: AutomationSnapshot)
        ensures
            snapshot.runtime_id@ == runtime_id@,
            snapshot.runtime_generation == runtime_generation,
            snapshot.mode == self@.mode,
            snapshot.phase == self@.phase,
            snapshot.revision == self@.revision,
            snapshot.next_decision_at == self@.next_decision_at,
            snapshot.decision_id == self@.decision_row_id,
            snapshot.group_id == (match self@.group {
                Some(g) => Some(g.group_id),
                None => None,
            }),
            snapshot.decision_status == self@.decision_status,
            snapshot.market_regime == self@.market_regime,
            opt(snapshot.decision_summary_ko) == self@.decision_summary_ko,
            match self@.group {
                Some(g) => {
                    &&& snapshot.scenarios@.len() == g.scenarios.len()
                    &&& forall|i: int|
                        0 <= i < snapshot.scenarios@.len() ==> shows_scenario(
                            #[trigger] snapshot.scenarios@[i],
                            g,
                            i,
                            *symbols,
                            now,
                        )
                },
                None => snapshot.scenarios@.len() == 0,
            },
            match self@.position {
                Some(p) => snapshot.position is Some && shows_position(snapshot.position->0, p),
                None => snapshot.position is None,
            },
            snapshot.shadow_cash == self@.shadow_cash,
            opt(snapshot.error) == self@.error,
            snapshot.market_day_status == market_day_status,
            snapshot.market_day_message == market_day_message,
    {
        let scenarios = match &self.group {
            Some(group) => scenario_infos(group, symbols, now),
            None => Vec::new(),
        };
        let position = match &self.position {
            Some(p) => {
                let pnl_rate: i128 = if p.avg_price > 0 && p.last_price > 0 {
                    rate_of(p.avg_price, p.last_price)
                } else {
                    0
                };
                Some(
                    AutomationPositionInfo {
                        product: p.product,
                        code: p.code.clone(),
                        qty: p.qty,
                        avg_price: p.avg_price,
                        pnl_rate,
                        target_return_pct: p.target_return_pct,
                        target_price: p.target_price,
                        exit_deadline: p.exit_deadline,
                        shadow: p.shadow,
                        profit_guard_armed: p.profit_guard_armed,
                    },
                )
            },
            None => None,
        };
        AutomationSnapshot {
            runtime_id: runtime_id.to_owned(),
            runtime_generation,
            mode: self.mode,
            phase: self.phase,
            revision: self.revision,
            next_decision_at: self.next_decision_at,
            decision_id: self.decision_row_id,
            group_id: match &self.group {
                Some(group) => Some(group.group_id()),
                None => None,
            },
            decision_status: self.decision_status,
            market_regime: self.market_regime,
            decision_summary_ko: copy_text(&self.decision_summary_ko),
            scenarios,
            position,
            shadow_cash: self.shadow_cash,
            error: copy_text(&self.error),
            market_day_status,
            market_day_message,
        }
    }
}

/// A restart loses nothing of what is stored: what the restored runtime stores is what was stored.
pub proof fn restart_keeps_what_is_stored(v: RuntimeView)
    ensures
        RuntimeView::restored(v.stored(), v.next_decision_at).stored() == v.stored(),
{
}

/// Outside the armed phase no trade changes anything: neither while suspended with a group that is
/// kept, nor while an entry is pending.
pub proof fn trades_reach_only_an_armed_group(v: RuntimeView, tick: TradeTick)
    requires
        v.phase != AutomationPhase::ArmedOco,
    ensures
        v.after_tick(tick) == v,
{
}

/// The scenario that a trade triggers is the one whose entry is pending from then on, and no further
/// trade triggers another.
pub proof fn triggered_scenario_is_pending(v: RuntimeView, tick: TradeTick, later: TradeTick)
    requires
        v.phase == AutomationPhase::ArmedOco,
        v.group is Some,
        v.group->0.tick_outcome(tick) is Triggered,
    ensures
        v.after_tick(tick).entry_matches(v.group->0.tick_outcome(tick)->0),
        v.after_tick(tick).after_tick(later) == v.after_tick(tick),
{
}

/// While an exit is under way its reason never gives way to a less urgent one, whatever asks for an
/// exit, and the close of the day comes before all others.
pub proof fn exit_reason_only_rises(v: RuntimeView, reason: Seq<char>)
    requires
        v.phase == AutomationPhase::ExitPending,
    ensures
        v.exit_begun(reason).phase == AutomationPhase::ExitPending,
        v.exit_begun(reason).exit_rank() >= v.exit_rank(),
        v.exit_begun(reason).exit_rank() >= reason_rank(reason),
        v.closing().exit_rank() >= v.exit_rank(),
        v.position is Some && !v.position->0.shadow ==> v.closing().exit_rank() == 4,
{
}

/// Shares are neither lost nor made by a sale: what leaves the position is counted as sold.
pub proof fn sales_conserve_shares(p: PositionView, qty: u64, price: u64)
    requires
        p.exit_qty + p.qty <= u64::MAX,
    ensures
        after_sale(p, qty, price).exit_qty + after_sale(p, qty, price).qty == p.exit_qty + p.qty,
        after_sale(p, qty, price).qty <= p.qty,
{
}

/// A guard once armed stays armed. It is armed only for a target above the guarded return, and never
/// triggers by a price above that return.
pub proof fn guard_protects_a_profit(p: PositionView, price: u64)
    ensures
        p.profit_guard_armed ==> after_price(p, price).profit_guard_armed,
        after_price(p, price).profit_guard_armed && !p.profit_guard_armed ==> p.target_return_pct
            > AUTO_PROFIT_GUARD_PCT && price > p.avg_price,
        price_report(p, price).profit_guard_triggered ==> p.profit_guard_armed,
        price_report(p, price).profit_guard_triggered ==> !price_report(
            p,
            price,
        ).guard_armed_changed,
{
    if above(p.avg_price as int, price as int, AUTO_PROFIT_GUARD_PCT as int) {
        assert(AUTO_PROFIT_GUARD_PCT * p.avg_price >= 0) by (nonlinear_arith)
            requires
                AUTO_PROFIT_GUARD_PCT >= 0,
                p.avg_price >= 0,
        ;
    }
}

/// No transition takes a revision back.
pub proof fn revision_never_falls(v: RuntimeView, tick: TradeTick, reason: Seq<char>, group: OcoView)
    ensures
        v.after_tick(tick).revision >= v.revision,
        v.paused().revision >= v.revision,
        v.exit_begun(reason).revision >= v.revision,
        v.closing().revision >= v.revision,
        v.idled_by(group).revision >= v.revision,
        v.ungrouped().revision == v.revision,
        v.bumped().revision >= v.revision,
        v.revision < u64::MAX ==> v.bumped().revision == v.revision + 1,
{
}

/// Reasons for an exit rank as they are urgent: the close, a loss, a guarded profit, the holding time,
/// and then any other.
pub proof fn reasons_rank_as_they_are_urgent(other: Seq<char>)
    requires
        other != "market_close"@,
        other != "stop_loss"@,
        other != "profit_guard"@,
        other != "max_holding"@,
    ensures
        reason_rank("market_close"@) > reason_rank("stop_loss"@) > reason_rank("profit_guard"@)
            > reason_rank("max_holding"@) > reason_rank(other),
{
    reveal_strlit("market_close");
    reveal_strlit("stop_loss");
    reveal_strlit("profit_guard");
    reveal_strlit("max_holding");
    assert("market_close"@.len() == 12 && "stop_loss"@.len() == 9);
    assert("profit_guard"@.len() == 12 && "max_holding"@.len() == 11);
    assert("market_close"@[0] == 'm' && "profit_guard"@[0] == 'p');
}

/// Whether a scenario of a group still waits.
pub open spec fn one_waits(g: OcoView) -> bool {
    exists|i: int|
        0 <= i < g.scenarios.len() && ((#[trigger] g.scenarios[i]).status == ScenarioStatus::Armed
            || g.scenarios[i].status == ScenarioStatus::Confirming)
}

/// A decision is triggered once its group has a winner, armed while a scenario of it still waits, and
/// otherwise what its scenarios ended with: refuted where one was, missed where all were, expired
/// where one was, and replaced where nothing else is known.
pub proof fn decision_is_what_its_group_came_to(g: OcoView, i: int)
    requires
        0 <= i < g.scenarios.len(),
    ensures
        g.winner is Some ==> group_status(g) == AutomationDecisionStatus::Triggered,
        g.winner is None ==> (group_status(g) == AutomationDecisionStatus::Armed <==> one_waits(g)),
        g.winner is None && !one_waits(g) ==> {
            &&& g.scenarios[i].status == ScenarioStatus::Invalidated ==> group_status(g)
                == AutomationDecisionStatus::Invalidated
            &&& (group_status(g) == AutomationDecisionStatus::Missed ==> g.scenarios[i].status
                == ScenarioStatus::Missed)
            &&& (forall|k: int|
                0 <= k < g.scenarios.len() ==> (#[trigger] g.scenarios[k]).status
                    == ScenarioStatus::Missed) ==> group_status(g)
                == AutomationDecisionStatus::Missed
            &&& g.scenarios[i].status == ScenarioStatus::Expired ==> group_status(g)
                == AutomationDecisionStatus::Expired || group_status(g)
                == AutomationDecisionStatus::Invalidated
            &&& (forall|k: int|
                0 <= k < g.scenarios.len() ==> (#[trigger] g.scenarios[k]).status
                    == ScenarioStatus::Replaced) ==> group_status(g)
                == AutomationDecisionStatus::Replaced
        },
{
    assert(one_waits(g) <==> g.has_active()) by {
        if g.has_active() {
            let k = choose|k: int| 0 <= k < g.scenarios.len() && (#[trigger] g.scenarios[k]).active();
            assert(g.scenarios[k].status == ScenarioStatus::Armed || g.scenarios[k].status
                == ScenarioStatus::Confirming);
        }
        if one_waits(g) {
            let k = choose|k: int|
                0 <= k < g.scenarios.len() && ((#[trigger] g.scenarios[k]).status
                    == ScenarioStatus::Armed || g.scenarios[k].status
                    == ScenarioStatus::Confirming);
            assert(g.scenarios[k].active());
        }
    }
    if every_status(g, ScenarioStatus::Missed) {
        assert(!some_status(g, ScenarioStatus::Invalidated));
    }
    if forall|k: int|
        0 <= k < g.scenarios.len() ==> (#[trigger] g.scenarios[k]).status
            == ScenarioStatus::Replaced {
        assert(g.scenarios[i].status == ScenarioStatus::Replaced);
    }
    if forall|k: int|
        0 <= k < g.scenarios.len() ==> (#[trigger] g.scenarios[k]).status
            == ScenarioStatus::Missed {
        assert(every_status(g, ScenarioStatus::Missed));
    }
}

/// A scenario that waits or triggered has no reason for having ended, and every other has one.
pub proof fn ended_scenarios_have_a_reason(status: ScenarioStatus)
    ensures
        terminal_reason(status) is None <==> status == ScenarioStatus::Armed || status
            == ScenarioStatus::Confirming || status == ScenarioStatus::Triggered,
{
}

/// Whether what is owned or on its way, and how it is run, is the same.
pub open spec fn owns_the_same(a: RuntimeView, b: RuntimeView) -> bool {
    &&& a.mode == b.mode
    &&& a.position == b.position
    &&& a.pending_entry == b.pending_entry
    &&& a.shadow_cash == b.shadow_cash
    &&& a.session_id == b.session_id
    &&& a.last_decision_slot == b.last_decision_slot
}

/// A start arms nothing and repeats no decision: it takes up what was stored, and reconciles first
/// where a position or an entry was under way, with the exit that was under way.
pub proof fn start_takes_up_what_was_stored(saved: PersistedView, next: Option<i64>)
    ensures
        ({
            let v = RuntimeView::restored(saved, next);
            &&& v.mode == saved.mode && v.position == saved.position && v.pending_entry
                == saved.pending_entry && v.shadow_cash == saved.shadow_cash && v.session_id
                == saved.session_id && v.last_decision_slot == saved.last_decision_slot
            &&& v.group is None && v.decision_status is None && v.error is None
            &&& v.next_decision_at == next
            &&& saved.position is Some || saved.pending_entry is Some ==> v.phase
                == AutomationPhase::Reconciling
            &&& saved.position is None && saved.pending_entry is None ==> v.phase
                == AutomationPhase::Idle
            &&& saved.position matches Some(p) ==> v.exit_reason == p.pending_exit_reason
            &&& saved.position is None ==> v.exit_reason is None
        }),
{
}

/// A pause unschedules the next decision and owns what was owned. Where nothing is owned or on its
/// way no group stays armed; where something is, the phase stays. The revision tells whether anything
/// changed.
pub proof fn pause_arms_nothing(v: RuntimeView)
    ensures
        ({
            let after = v.paused();
            let free = v.position is None && v.pending_entry is None;
            &&& after.next_decision_at is None
            &&& owns_the_same(v, after)
            &&& !free ==> after.phase == v.phase && after.group == v.group
            &&& free && (v.phase == AutomationPhase::Idle || v.phase == AutomationPhase::Analyzing
                || v.phase == AutomationPhase::ArmedOco || v.phase == AutomationPhase::EntryPending)
                ==> after.phase == AutomationPhase::Idle && after.group is None
            &&& v.phase != AutomationPhase::Idle && v.phase != AutomationPhase::Analyzing && v.phase
                != AutomationPhase::ArmedOco && v.phase != AutomationPhase::EntryPending
                ==> after.phase == v.phase && after.group == v.group
            &&& v.pause_changes() <==> v.next_decision_at is Some || after.phase != v.phase || (
            after.group is None && v.group is Some)
            &&& !v.pause_changes() ==> after.revision == v.revision
            &&& v.pause_changes() && v.revision < u64::MAX ==> after.revision == v.revision + 1
        }),
{
}

/// A group that is given up leaves its decision's outcome, and nothing that waits counts any longer.
pub proof fn given_up_group_keeps_its_outcome(v: RuntimeView)
    ensures
        ({
            let after = v.ungrouped();
            &&& after.group is None && after.group_expires_epoch is None
            &&& owns_the_same(v, after)
            &&& after.phase == v.phase && after.error == v.error && after.next_decision_at
                == v.next_decision_at && after.decision_key == v.decision_key
                && after.decision_row_id == v.decision_row_id && after.exit_reason == v.exit_reason
            &&& v.group is None ==> after.decision_status == v.decision_status
            &&& v.group matches Some(g) ==> after.decision_status is Some
                && after.decision_status != Some(AutomationDecisionStatus::Armed)
            &&& v.group matches Some(g) ==> (g.winner is Some ==> after.decision_status == Some(
                AutomationDecisionStatus::Triggered,
            ))
            &&& v.undecided().group == v.group && owns_the_same(v, v.undecided())
            &&& v.undecided().decision_key is None && v.undecided().decision_status is None
                && v.undecided().decision_row_id is None && v.undecided().market_regime is None
                && v.undecided().decision_summary_ko is None
        }),
{
    if let Some(g) = v.group {
        if g.winner is None && g.has_active() {
            let after = g.ended(ScenarioStatus::Replaced);
            assert forall|i: int| 0 <= i < after.scenarios.len() implies !(
            #[trigger] after.scenarios[i]).active() by {
                assert(after.scenarios[i] == (if g.scenarios[i].active() {
                    g.scenarios[i].settled(ScenarioStatus::Replaced)
                } else {
                    g.scenarios[i]
                }));
            }
        }
    }
}

/// A trade of the underlying share moves the armed group alone. One that triggers a scenario leaves
/// its entry pending; one after which nothing waits leaves the runtime idle with what the decision
/// came to; after any other the group stays armed.
pub proof fn trade_moves_the_armed_group(v: RuntimeView, tick: TradeTick)
    requires
        v.phase == AutomationPhase::ArmedOco,
        v.group is Some,
    ensures
        ({
            let after = v.after_tick(tick);
            let outcome = v.group->0.tick_outcome(tick);
            let group = v.group->0.after_tick(tick);
            &&& owns_the_same(v, after)
            &&& after.group == Some(group)
            &&& after.next_decision_at == v.next_decision_at && after.exit_reason == v.exit_reason
                && after.error == v.error && after.decision_key == v.decision_key
            &&& outcome is Triggered ==> after.phase == AutomationPhase::EntryPending
                && after.decision_status == Some(AutomationDecisionStatus::Triggered)
            &&& outcome is Expired ==> after.phase == AutomationPhase::Idle
            &&& outcome is Updated ==> (after.phase == AutomationPhase::Idle <==> !one_waits(group))
            &&& outcome is Updated && one_waits(group) ==> after.phase == AutomationPhase::ArmedOco
            &&& outcome is Ignored ==> after.phase == AutomationPhase::ArmedOco && after.revision
                == v.revision
            &&& after.phase == v.phase ==> after.decision_status == v.decision_status
                && after.revision == v.revision
            &&& after.phase != v.phase && v.revision < u64::MAX ==> after.revision == v.revision + 1
        }),
{
    let group = v.group->0.after_tick(tick);
    if group.has_active() {
        let k = choose|k: int|
            0 <= k < group.scenarios.len() && (#[trigger] group.scenarios[k]).active();
        assert(group.scenarios[k].status == ScenarioStatus::Armed || group.scenarios[k].status
            == ScenarioStatus::Confirming);
    }
    if one_waits(group) {
        let k = choose|k: int|
            0 <= k < group.scenarios.len() && ((#[trigger] group.scenarios[k]).status
                == ScenarioStatus::Armed || group.scenarios[k].status
                == ScenarioStatus::Confirming);
        assert(group.scenarios[k].active());
    }
}

/// Whether two positions differ at most in why they are left.
pub open spec fn holds_the_same(a: PositionView, b: PositionView) -> bool {
    &&& a.product == b.product && a.code == b.code && a.entry_qty == b.entry_qty && a.qty == b.qty
    &&& a.avg_price == b.avg_price && a.last_price == b.last_price
    &&& a.target_return_pct == b.target_return_pct && a.target_price == b.target_price
    &&& a.first_fill_at == b.first_fill_at && a.exit_deadline == b.exit_deadline
    &&& a.target_order_no == b.target_order_no && a.target_org_no == b.target_org_no
    &&& a.target_intent_id == b.target_intent_id && a.exit_order_no == b.exit_order_no
    &&& a.exit_order_org_no == b.exit_order_org_no && a.exit_intent_id == b.exit_intent_id
    &&& a.exit_requested_at == b.exit_requested_at && a.exit_qty == b.exit_qty
    &&& a.exit_value == b.exit_value && a.trade_id == b.trade_id && a.shadow == b.shadow
    &&& a.profit_guard_armed == b.profit_guard_armed
}

/// An exit begins from holding alone, for the reason that was asked for, which the position keeps
/// too; one under way takes on a more urgent reason and no other. Nothing else of the position
/// changes.
pub proof fn exit_begins_from_holding(v: RuntimeView, reason: Seq<char>)
    ensures
        ({
            let after = v.exit_begun(reason);
            &&& v.phase != AutomationPhase::Holding && v.phase != AutomationPhase::ExitPending
                ==> after == v
            &&& v.phase == AutomationPhase::Holding ==> after.phase == AutomationPhase::ExitPending
                && after.exit_reason == Some(reason)
            &&& v.phase == AutomationPhase::Holding ==> (v.position matches Some(p) ==> (
            after.position matches Some(q) && q.pending_exit_reason == Some(reason)
                && holds_the_same(p, q)))
            &&& v.phase == AutomationPhase::ExitPending && reason_rank(reason) <= v.exit_rank()
                ==> after == v
            &&& v.phase == AutomationPhase::ExitPending && reason_rank(reason) > v.exit_rank()
                ==> after.exit_reason == Some(reason) && (v.position matches Some(p) ==> (
            after.position matches Some(q) && q.pending_exit_reason == Some(reason)
                && holds_the_same(p, q)))
            &&& (v.position is None <==> after.position is None)
            &&& after.pending_entry == v.pending_entry && after.mode == v.mode && after.group
                == v.group
            &&& v.exit_reason == Some("market_close"@) ==> (v.phase == AutomationPhase::ExitPending
                ==> after == v)
        }),
{
    reveal_strlit("market_close");
}

/// The close of the day is the reason of the exit from every real position that is held, suspended or
/// being left; a simulated one and any other phase stay as they are.
pub proof fn close_exits_real_positions(v: RuntimeView)
    ensures
        ({
            let after = v.closing();
            &&& v.position is None ==> after == v
            &&& v.position matches Some(p) ==> {
                &&& p.shadow ==> after == v
                &&& !p.shadow && (v.phase == AutomationPhase::Holding || v.phase
                    == AutomationPhase::Suspended || v.phase == AutomationPhase::ExitPending) ==> {
                    &&& after.phase == AutomationPhase::ExitPending
                    &&& after.exit_reason == Some("market_close"@)
                    &&& after.position matches Some(q) && q.pending_exit_reason == Some(
                        "market_close"@,
                    ) && holds_the_same(p, q)
                }
                &&& v.phase != AutomationPhase::Holding && v.phase != AutomationPhase::Suspended
                    && v.phase != AutomationPhase::ExitPending ==> after == v
            }
        }),
{
}

/// After the start a reason to suspend comes first, then an entry under way, then an exit, and only
/// then is a position held or nothing.
pub proof fn reconciling_ends_in_what_was_under_way(v: RuntimeView, suspended: Option<Seq<char>>)
    ensures
        ({
            let after = v.reconciled(suspended);
            let leaving = v.phase == AutomationPhase::ExitPending || (v.position is Some
                && v.position->0.exit_intent_id is Some);
            &&& owns_the_same(v, after)
            &&& suspended is Some ==> after.phase == AutomationPhase::Suspended
            &&& after.error == suspended
            &&& suspended is None && v.pending_entry is Some ==> after.phase
                == AutomationPhase::EntryPending
            &&& suspended is None && v.pending_entry is None && leaving ==> after.phase
                == AutomationPhase::ExitPending && after.exit_reason is Some
            &&& suspended is None && v.pending_entry is None && leaving && v.position is Some
                && v.position->0.pending_exit_reason is Some ==> after.exit_reason
                == v.position->0.pending_exit_reason
            &&& suspended is None && v.pending_entry is None && !leaving && v.position is Some
                ==> after.phase == AutomationPhase::Holding
            &&& suspended is None && v.pending_entry is None && !leaving && v.position is None
                ==> after.phase == AutomationPhase::Idle
        }),
{
}

/// A sale counts for a real position, by the code and by the number of its target or exit order. It
/// takes its shares from the position, all that is left where it is of more, and adds what they
/// brought.
pub proof fn sale_takes_its_shares(
    p: PositionView,
    code: Seq<char>,
    order_no: Seq<char>,
    qty: u64,
    price: u64,
)
    ensures
        sale_counts(p, code, order_no, qty, price) <==> !p.shadow && p.code == code && qty > 0
            && price > 0 && (p.target_order_no == Some(order_no) || p.exit_order_no == Some(
            order_no,
        )),
        ({
            let after = after_sale(p, qty, price);
            let sold = p.qty - after.qty;
            &&& qty <= p.qty ==> sold == qty
            &&& qty > p.qty ==> after.qty == 0
            &&& p.exit_qty + sold <= u64::MAX ==> after.exit_qty == p.exit_qty + sold
            &&& p.exit_value + price * sold <= u128::MAX ==> after.exit_value == p.exit_value + price
                * sold
            &&& after.last_price == price
            &&& after.entry_qty == p.entry_qty && after.avg_price == p.avg_price
                && after.target_order_no == p.target_order_no && after.exit_order_no
                == p.exit_order_no && after.code == p.code && after.trade_id == p.trade_id
                && after.pending_exit_reason == p.pending_exit_reason
        }),
{
}

/// A return is the gain or the loss for each hundred of the average price, in billionths, cut towards
/// zero: it has the sign of the gain and is at most a billionth short of it.
pub proof fn return_is_the_share_gained(avg: int, price: int)
    requires
        avg > 0,
        price >= 0,
    ensures
        ({
            let rate = return_rate(avg, price);
            let gain = (price - avg) * 100_000_000_000;
            &&& price == avg ==> rate == 0
            &&& price >= avg ==> rate >= 0 && rate * avg <= gain < (rate + 1) * avg
            &&& price < avg ==> rate <= 0 && (rate - 1) * avg < gain <= rate * avg
        }),
{
    let gain = if price >= avg {
        (price - avg) * 100_000_000_000
    } else {
        (avg - price) * 100_000_000_000
    };
    let q = gain / avg;
    vstd::arithmetic::div_mod::lemma_fundamental_div_mod(gain, avg);
    vstd::arithmetic::div_mod::lemma_mod_bound(gain, avg);
    vstd::arithmetic::div_mod::lemma_div_pos_is_pos(gain, avg);
    assert(avg * q == q * avg && (q + 1) * avg == q * avg + avg && (-q) * avg == -(q * avg) && (-q
        - 1) * avg == -(q * avg) - avg) by (nonlinear_arith);
    if price == avg {
        assert(q == 0) by (nonlinear_arith)
            requires
                0 == avg * q + gain % avg,
                0 <= gain % avg < avg,
                avg > 0,
                q >= 0,
        ;
    }
}

/// The guard of a position is armed by a price more than 0.3 % above its average, where the target
/// lies above that return too, and stays so; an armed one triggers at any price that is not.
pub proof fn guard_is_armed_above_its_return(p: PositionView, price: u64)
    ensures
        ({
            let after = after_price(p, price);
            let report = price_report(p, price);
            let high = price * 1_000 > p.avg_price * 1_003;
            &&& after.profit_guard_armed <==> p.profit_guard_armed || (p.target_return_pct
                > 300_000_000 && high)
            &&& report.guard_armed_changed <==> after.profit_guard_armed && !p.profit_guard_armed
            &&& report.profit_guard_triggered <==> p.profit_guard_armed && !high
            &&& after.last_price == price
            &&& after.qty == p.qty && after.avg_price == p.avg_price && after.code == p.code
                && after.target_price == p.target_price
            &&& p.avg_price > 0 ==> report.rate == return_rate(p.avg_price as int, price as int)
        }),
{
    if p.avg_price > 0 {
        lemma_rate_fits(p.avg_price, price);
    }
}

proof fn lemma_rate_fits(avg: u64, price: u64)
    requires
        avg > 0,
    ensures
        i128::MIN <= return_rate(avg as int, price as int) <= i128::MAX,
{
    return_is_the_share_gained(avg as int, price as int);
    let rate = return_rate(avg as int, price as int);
    let gain = (price - avg) * 100_000_000_000;
    if price >= avg {
        assert(rate <= gain) by (nonlinear_arith)
            requires
                rate * avg <= gain,
                rate >= 0,
                avg >= 1,
        ;
    } else {
        assert(rate >= gain) by (nonlinear_arith)
            requires
                gain <= rate * avg,
                rate <= 0,
                avg >= 1,
        ;
    }
}

/// A target order's number is taken once, for a position whose target was intended; the same number
/// again changes at most who keeps it, and another is refused.
pub proof fn target_number_is_taken_once(p: PositionView, order_no: Seq<char>, org_no: Seq<char>)
    ensures
        p.target_intent_id is None ==> bound_target(p, order_no, org_no) is None,
        p.target_intent_id is Some && p.target_order_no is None ==> (bound_target(
            p,
            order_no,
            org_no,
        ) matches Some(q) && q.target_order_no == Some(order_no) && q.target_org_no == Some(org_no)
            && q.qty == p.qty && q.target_intent_id == p.target_intent_id),
        p.target_order_no matches Some(known) ==> (known != order_no ==> bound_target(
            p,
            order_no,
            org_no,
        ) is None),
        p.target_intent_id is Some && p.target_order_no == Some(order_no) ==> (bound_target(
            p,
            order_no,
            org_no,
        ) matches Some(q) && q.target_order_no == Some(order_no) && (blank(org_no)
            ==> q.target_org_no == p.target_org_no) && (!blank(org_no) ==> q.target_org_no == Some(
            org_no,
        ))),
{
}

/// A new analysis needs automatic or simulated trading and a phase in which nothing is under way, with
/// no position and no entry.
pub proof fn analysis_needs_free_hands(v: RuntimeView)
    ensures
        v.may_analyze() ==> v.position is None && v.pending_entry is None && v.mode
            != ControlMode::Manual && (v.phase == AutomationPhase::Idle || v.phase
            == AutomationPhase::ArmedOco),
        v.position is None && v.pending_entry is None && (v.mode == ControlMode::Auto || v.mode
            == ControlMode::Shadow) && (v.phase == AutomationPhase::Idle || v.phase
            == AutomationPhase::ArmedOco) ==> v.may_analyze(),
{
}

/// A decision arms its scenarios as they were seeded, in their order, from the moment it is applied to
/// its expiry; it is watched exactly while one of them waits.
pub proof fn decision_arms_its_scenarios(
    v: RuntimeView,
    scenarios: Seq<ValidatedScenario>,
    seeds: Seq<ScenarioSeed>,
    last: Option<u64>,
    group_id: i64,
    revision: u64,
    armed_at: Nanos,
    expires_at: Nanos,
)
    ensures
        ({
            let g = RuntimeView::armed_group(
                scenarios,
                seeds,
                last,
                group_id,
                revision,
                armed_at,
                expires_at,
            );
            let after = v.with_group(g);
            &&& g.group_id == group_id && g.revision == revision && g.expires_at == expires_at
                && g.accept_ticks_after == armed_at && g.last_sequence == last && g.winner is None
            &&& g.scenarios.len() == scenarios.len()
            &&& forall|i: int|
                0 <= i < scenarios.len() ==> (#[trigger] g.scenarios[i]).scenario == scenarios[i]
            &&& after.group == Some(g)
            &&& owns_the_same(v, after)
            &&& g.has_active() ==> after.phase == AutomationPhase::ArmedOco && after.decision_status
                == v.decision_status
            &&& !g.has_active() ==> after.phase == AutomationPhase::Idle && after.decision_status
                is Some
            &&& v.without_entry().group is None && v.without_entry().phase == AutomationPhase::Idle
        }),
{
}

/// An entry is that of a scenario only where it won the group, which is of the same decision.
pub proof fn entry_is_of_the_winner(v: RuntimeView, t: TriggeredScenario)
    ensures
        v.entry_matches(t) <==> v.phase == AutomationPhase::EntryPending && (v.group matches Some(g)
            && g.group_id == t.group_id && g.revision == t.revision && (g.winner matches Some(w)
            && w.scenario.product == t.scenario.product)),
{
}

/// The scenarios of a decision are shown under numbers of their own.
pub proof fn scenarios_have_their_own_numbers(group_id: i64, i: int, other: i64, j: int)
    requires
        0 <= i < 10,
        0 <= j < 10,
        0 <= group_id <= 900_000_000_000_000_000,
        0 <= other <= 900_000_000_000_000_000,
        group_id != other || i != j,
    ensures
        scenario_id(group_id, i) != scenario_id(other, j),
{
}

} // verus!
