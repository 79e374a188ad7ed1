use easy_scalping::automation::oco::{
    validate_decision, ScenarioSeed, TradeTick, ValidatedDecision,
};
use easy_scalping::automation::runtime::{
    exit_reason_priority, scenario_terminal_reason_ko, AutomationRuntime, OwnedPosition,
    PendingAutoEntry, PersistedAutomation,
};
use easy_scalping::types::{
    AutoSymbols, AutomationDecisionStatus, AutomationPhase, AutomationSnapshot, ControlMode,
    MarketDayStatus, MarketRegime, ModelScenario, ProductKind, ScenarioSetup, ScenarioStatus,
    SetupType,
};

const SECOND: u128 = 1_000_000_000;

/// Targets in tenths of a percent.
const TENTH: i64 = 100_000_000;

fn position(target: i64) -> OwnedPosition {
    OwnedPosition {
        product: ProductKind::Leverage,
        code: "0193T0".into(),
        entry_qty: 10,
        qty: 10,
        avg_price: 100_000_000,
        last_price: 100_000_000,
        target_return_pct: target * TENTH,
        target_price: 10_040,
        first_fill_at: 1_000,
        exit_deadline: 1_600,
        target_order_no: None,
        target_org_no: None,
        target_intent_id: None,
        exit_order_no: None,
        exit_order_org_no: None,
        exit_intent_id: None,
        exit_requested_at: None,
        pending_exit_reason: None,
        exit_qty: 0,
        exit_value: 0,
        trade_id: "profit-guard-test".into(),
        shadow: false,
        profit_guard_armed: false,
    }
}

fn saved(mode: ControlMode) -> PersistedAutomation {
    PersistedAutomation { mode, ..PersistedAutomation::default() }
}

fn scenario(
    product: ProductKind,
    setup_type: SetupType,
    reference_price: u64,
    trigger_price: u64,
    invalidation_price: u64,
    rationale: &str,
) -> ModelScenario {
    ModelScenario {
        product,
        trigger_price,
        target_return_pct: Some(3 * TENTH),
        setup: Some(ScenarioSetup {
            setup_type,
            reference_price,
            confirmation_price: trigger_price,
            invalidation_price,
            rationale_ko: rationale.into(),
        }),
    }
}

fn reversal_decision() -> ValidatedDecision {
    validate_decision(
        185_000,
        &[scenario(
            ProductKind::Inverse,
            SetupType::Reversal,
            185_200,
            184_800,
            185_400,
            "반복 저항 시험과 거래량 감소",
        )],
    )
    .unwrap()
}

fn accept(
    runtime: &mut AutomationRuntime,
    id: i64,
    regime: MarketRegime,
    summary: &str,
    decision: &ValidatedDecision,
    status: AutomationDecisionStatus,
    seeds: &[ScenarioSeed],
) -> bool {
    let revision = runtime.begin_analysis(1_000, Some(1_300)).unwrap();
    runtime.accept_decision(
        revision,
        id,
        format!("decision-{id}"),
        regime,
        summary.into(),
        decision,
        status,
        seeds,
        None,
        id,
        10 * SECOND,
        310 * SECOND,
        1_300,
    )
}

fn snapshot(runtime: &AutomationRuntime, second: u128) -> AutomationSnapshot {
    runtime.snapshot(
        "runtime",
        1,
        &AutoSymbols::default(),
        second * SECOND,
        MarketDayStatus::Open,
        None,
    )
}

fn tick(price: u64, second: u128) -> TradeTick {
    TradeTick { sequence: 1, price, volume: 1, at: second * SECOND }
}

#[test]
fn the_slot_of_an_analysis_is_kept_for_a_restart() {
    let slot = 1_753_153_200;
    let next = slot + 300;
    let mut runtime = AutomationRuntime::new(saved(ControlMode::Auto), Some(slot));

    assert!(runtime.begin_analysis(slot, Some(next)).is_some());
    let saved = runtime.persistable();

    assert_eq!(saved.last_decision_slot, Some(slot));
    assert_eq!(saved.next_decision_at, Some(next));
}

#[test]
fn nothing_is_saved_by_default() {
    let saved = PersistedAutomation::default();
    assert_eq!(saved.mode, ControlMode::Manual);
    assert_eq!(saved.next_decision_at, None);
    assert_eq!(saved.last_decision_slot, None);
}

#[test]
fn a_target_above_the_guard_arms_it_and_a_fall_triggers_it() {
    let mut runtime = AutomationRuntime::new(PersistedAutomation::default(), None);
    runtime.mark_holding(position(4));

    let before = runtime.update_position_price("0193T0", 100_300_000).unwrap();
    assert!(!before.guard_armed_changed);
    assert!(!before.profit_guard_triggered);
    assert_eq!(before.rate, 300_000_000);

    let armed = runtime.update_position_price("0193T0", 100_350_000).unwrap();
    assert!(armed.guard_armed_changed);
    assert!(!armed.profit_guard_triggered);
    assert!(runtime.position().unwrap().profit_guard_armed);

    let retraced = runtime.update_position_price("0193T0", 100_300_000).unwrap();
    assert!(retraced.profit_guard_triggered);

    let mut point_three = AutomationRuntime::new(PersistedAutomation::default(), None);
    point_three.mark_holding(position(3));
    let update = point_three.update_position_price("0193T0", 100_350_000).unwrap();
    assert!(!update.guard_armed_changed);
    assert!(!update.profit_guard_triggered);
}

#[test]
fn a_price_of_nothing_is_not_used() {
    let mut runtime = AutomationRuntime::new(PersistedAutomation::default(), None);
    runtime.mark_holding(position(4));
    assert!(
        runtime
            .update_position_price("0193T0", 100_350_000)
            .unwrap()
            .guard_armed_changed
    );

    assert!(runtime.update_position_price("0193T0", 0).is_none());
    assert_eq!(runtime.position().unwrap().last_price, 100_350_000);
    assert!(runtime.update_position_price("0197X0", 100_350_000).is_none());

    let retraced = runtime.update_position_price("0193T0", 100_300_000).unwrap();
    assert!(retraced.profit_guard_triggered);
}

#[test]
fn exit_reasons_only_rise() {
    let mut runtime = AutomationRuntime::new(saved(ControlMode::Auto), None);
    runtime.mark_holding(position(4));

    assert!(runtime.begin_exit("max_holding").is_some());
    assert!(runtime.begin_exit("profit_guard").is_none());
    assert_eq!(runtime.exit_reason(), Some("profit_guard"));
    assert!(runtime.begin_exit("max_holding").is_none());
    assert_eq!(runtime.exit_reason(), Some("profit_guard"));
    assert!(runtime.begin_exit("stop_loss").is_none());
    assert_eq!(runtime.exit_reason(), Some("stop_loss"));
    assert!(runtime.begin_market_close_exit().is_none());
    assert_eq!(runtime.exit_reason(), Some("market_close"));
    assert_eq!(
        runtime.position().and_then(|p| p.pending_exit_reason.as_deref()),
        Some("market_close")
    );
    assert!(exit_reason_priority("market_close") > exit_reason_priority("stop_loss"));
    assert!(exit_reason_priority("stop_loss") > exit_reason_priority("profit_guard"));
    assert!(exit_reason_priority("profit_guard") > exit_reason_priority("max_holding"));
}

#[test]
fn a_missed_scenario_and_its_reasons_are_shown() {
    let mut runtime = AutomationRuntime::new(saved(ControlMode::Shadow), None);
    let decision = reversal_decision();
    assert!(accept(
        &mut runtime,
        17,
        MarketRegime::Range,
        "저항 재시험 뒤 반락 후보",
        &decision,
        AutomationDecisionStatus::Missed,
        &[ScenarioSeed::missed(ProductKind::Inverse, Some(999))],
    ));
    assert_eq!(runtime.phase(), AutomationPhase::Idle);

    let snapshot = snapshot(&runtime, 11);
    assert_eq!(snapshot.market_regime, Some(MarketRegime::Range));
    assert_eq!(snapshot.decision_status, Some(AutomationDecisionStatus::Missed));
    assert_eq!(
        snapshot.decision_summary_ko.as_deref(),
        Some("저항 재시험 뒤 반락 후보")
    );
    assert_eq!(snapshot.scenarios.len(), 1);
    let scenario = &snapshot.scenarios[0];
    assert_eq!(scenario.status, ScenarioStatus::Missed);
    let setup = scenario.setup.as_ref().unwrap();
    assert_eq!(setup.setup_type, SetupType::Reversal);
    assert_eq!(setup.reference_price, 185_200);
    assert_eq!(setup.confirmation_price, 184_800);
    assert_eq!(scenario.trigger_price, 184_800);
    assert_eq!(setup.invalidation_price, 185_400);
    assert_eq!(scenario.reference_observed_at, Some(999));
    assert_eq!(setup.rationale_ko, "반복 저항 시험과 거래량 감소");
    assert_eq!(
        scenario.terminal_reason.as_deref(),
        Some("응답 적용 시 확인가를 이미 지나 추격 진입하지 않음")
    );
}

#[test]
fn reasons_for_the_end_of_a_scenario_are_worded_once() {
    let cases = [
        (
            ScenarioStatus::Missed,
            "응답 적용 시 확인가를 이미 지나 추격 진입하지 않음",
        ),
        (ScenarioStatus::Invalidated, "무효화가 침범"),
        (ScenarioStatus::Expired, "다음 판단 슬롯 만료"),
        (ScenarioStatus::Replaced, "새 LLM 판단으로 교체"),
        (ScenarioStatus::CancelledByOco, "반대 시나리오 진입 확정"),
        (ScenarioStatus::Invalid, "의미 검증 실패"),
    ];
    for (status, expected) in cases {
        assert_eq!(scenario_terminal_reason_ko(status), Some(expected));
    }
    for status in [
        ScenarioStatus::Armed,
        ScenarioStatus::Confirming,
        ScenarioStatus::Triggered,
    ] {
        assert_eq!(scenario_terminal_reason_ko(status), None);
    }
}

#[test]
fn a_group_whose_end_was_not_recorded_waits_without_acting() {
    let mut runtime = AutomationRuntime::new(saved(ControlMode::Shadow), None);
    assert!(accept(
        &mut runtime,
        20,
        MarketRegime::Range,
        "x",
        &reversal_decision(),
        AutomationDecisionStatus::Armed,
        &[],
    ));

    runtime.suspend_preserving_group("장부 종결 재시도");
    assert!(runtime.has_group_pending_ledger_repair());
    assert!(runtime.on_trade_tick(tick(184_800, 20)).is_none());
    assert!(runtime.finish_group_ledger_repair());
    assert!(!runtime.has_group_pending_ledger_repair());
    assert_eq!(runtime.phase(), AutomationPhase::Suspended);
}

#[test]
fn a_decision_to_stay_out_is_shown_with_its_summary() {
    let mut runtime = AutomationRuntime::new(saved(ControlMode::Shadow), None);
    let decision = validate_decision(185_000, &[]).unwrap();
    assert!(accept(
        &mut runtime,
        19,
        MarketRegime::Unclear,
        "시간축 충돌과 목표 공간 부족으로 관망",
        &decision,
        AutomationDecisionStatus::Skipped,
        &[],
    ));
    let snapshot = snapshot(&runtime, 11);
    assert_eq!(runtime.phase(), AutomationPhase::Idle);
    assert_eq!(snapshot.market_regime, Some(MarketRegime::Unclear));
    assert_eq!(snapshot.decision_status, Some(AutomationDecisionStatus::Skipped));
    assert_eq!(
        snapshot.decision_summary_ko.as_deref(),
        Some("시간축 충돌과 목표 공간 부족으로 관망")
    );
    assert!(snapshot.scenarios.is_empty());
}

#[test]
fn a_decision_of_which_nothing_makes_sense_is_not_one_to_stay_out() {
    let mut runtime = AutomationRuntime::new(saved(ControlMode::Shadow), None);
    let decision = validate_decision(
        185_000,
        &[scenario(
            ProductKind::Inverse,
            SetupType::Reversal,
            184_900,
            185_200,
            184_700,
            "잘못된 가격 순서",
        )],
    )
    .unwrap();
    assert!(decision.scenarios.is_empty());
    assert!(!decision.rejected.is_empty());

    assert!(accept(
        &mut runtime,
        21,
        MarketRegime::Range,
        "가격 순서가 잘못된 후보",
        &decision,
        AutomationDecisionStatus::Invalid,
        &[],
    ));
    let snapshot = snapshot(&runtime, 11);
    assert_eq!(runtime.phase(), AutomationPhase::Idle);
    assert_eq!(snapshot.decision_status, Some(AutomationDecisionStatus::Invalid));
    assert!(snapshot.scenarios.is_empty());
}

#[test]
fn the_runtime_is_idle_once_the_last_scenario_is_invalidated() {
    let mut runtime = AutomationRuntime::new(saved(ControlMode::Shadow), None);
    assert!(accept(
        &mut runtime,
        18,
        MarketRegime::Range,
        "x",
        &reversal_decision(),
        AutomationDecisionStatus::Armed,
        &[],
    ));

    assert!(runtime.on_trade_tick(tick(185_400, 11)).is_none());
    assert_eq!(runtime.phase(), AutomationPhase::Idle);
    let snapshot = snapshot(&runtime, 11);
    assert_eq!(snapshot.scenarios[0].status, ScenarioStatus::Invalidated);
    assert_eq!(snapshot.decision_status, Some(AutomationDecisionStatus::Invalidated));
}

#[test]
fn a_reset_at_the_expiry_does_not_leave_the_runtime_stuck() {
    let mut runtime = AutomationRuntime::new(saved(ControlMode::Shadow), None);
    assert!(accept(
        &mut runtime,
        20,
        MarketRegime::Range,
        "x",
        &reversal_decision(),
        AutomationDecisionStatus::Armed,
        &[],
    ));

    assert!(runtime.reset_confirmation(310 * SECOND));
    assert_eq!(runtime.phase(), AutomationPhase::Idle);
    let snapshot = snapshot(&runtime, 310);
    assert_eq!(snapshot.scenarios[0].status, ScenarioStatus::Expired);
    assert_eq!(snapshot.decision_status, Some(AutomationDecisionStatus::Expired));
}

#[test]
fn an_invalidated_side_counts_before_an_expired_one() {
    let mut runtime = AutomationRuntime::new(saved(ControlMode::Shadow), None);
    let decision = validate_decision(
        185_000,
        &[
            scenario(
                ProductKind::Leverage,
                SetupType::Continuation,
                185_200,
                185_400,
                184_600,
                "상단 돌파 대기",
            ),
            scenario(
                ProductKind::Inverse,
                SetupType::Reversal,
                185_200,
                184_800,
                185_400,
                "저항 반락 대기",
            ),
        ],
    )
    .unwrap();
    assert!(accept(
        &mut runtime,
        22,
        MarketRegime::Transition,
        "양방향 후보 중 한쪽 무효화",
        &decision,
        AutomationDecisionStatus::Armed,
        &[
            ScenarioSeed::armed(ProductKind::Leverage, None),
            ScenarioSeed::invalidated(ProductKind::Inverse, Some(990)),
        ],
    ));
    assert!(runtime.on_trade_tick(tick(185_000, 310)).is_none());

    let snapshot = snapshot(&runtime, 310);
    assert_eq!(snapshot.decision_status, Some(AutomationDecisionStatus::Invalidated));
    assert!(snapshot.scenarios.iter().any(|s| s.status == ScenarioStatus::Expired));
    assert!(snapshot.scenarios.iter().any(|s| s.status == ScenarioStatus::Invalidated));
}

#[test]
fn a_pending_entry_becomes_a_position() {
    let mut runtime = AutomationRuntime::new(saved(ControlMode::Auto), None);
    assert!(accept(
        &mut runtime,
        5,
        MarketRegime::Range,
        "x",
        &reversal_decision(),
        AutomationDecisionStatus::Armed,
        &[],
    ));
    for (sequence, second) in [(1, 11), (2, 12), (3, 14)] {
        let trade = TradeTick { sequence, price: 184_800, volume: 1, at: second * SECOND };
        assert!(runtime.on_trade_tick(trade).is_none());
    }
    let trade = TradeTick { sequence: 4, price: 184_800, volume: 1, at: 15 * SECOND };
    let triggered = runtime.on_trade_tick(trade).unwrap();
    assert_eq!(triggered.scenario.product, ProductKind::Inverse);
    assert_eq!(runtime.phase(), AutomationPhase::EntryPending);
    assert!(runtime.pending_matches(&triggered));
    assert!(runtime.pending_matches_at(&triggered, 1_299));
    assert!(!runtime.pending_matches_at(&triggered, 1_300));
    assert!(runtime.set_pending_entry(PendingAutoEntry {
        intent_id: "i".into(),
        trade_id: "t".into(),
        baseline_qty: 0,
        product: ProductKind::Inverse,
        target_return_pct: 3 * TENTH,
    }));
    assert!(runtime.stage_entry_position(position(3)));
    assert!(runtime.set_pending_target_intent("target".into()));
    // Without a target order the position is not guarded yet.
    assert!(!runtime.complete_pending_entry());
    assert!(runtime.bind_target_order("1".into(), "2".into()));
    assert!(runtime.complete_pending_entry());
    assert_eq!(runtime.phase(), AutomationPhase::Holding);
    assert!(runtime.owns_real_code("0193T0"));
    let saved = runtime.persistable();
    assert_eq!(saved.position.unwrap().target_order_no.as_deref(), Some("1"));
}

/// A runtime that holds a position of ten shares with a target order.
fn holding() -> AutomationRuntime {
    let mut runtime = AutomationRuntime::new(saved(ControlMode::Auto), None);
    assert!(runtime.restore_pending_entry(entry()));
    assert!(!runtime.restore_pending_entry(entry()));
    assert!(runtime.stage_entry_position(position(3)));
    assert!(runtime.set_pending_target_intent("target".into()));
    assert!(runtime.bind_target_order("1".into(), "2".into()));
    assert!(runtime.complete_pending_entry());
    runtime
}

fn entry() -> PendingAutoEntry {
    PendingAutoEntry {
        intent_id: "i".into(),
        trade_id: "t".into(),
        baseline_qty: 0,
        product: ProductKind::Leverage,
        target_return_pct: 3 * TENTH,
    }
}

fn armed() -> AutomationRuntime {
    let mut runtime = AutomationRuntime::new(saved(ControlMode::Auto), None);
    assert!(accept(
        &mut runtime,
        6,
        MarketRegime::Range,
        "x",
        &reversal_decision(),
        AutomationDecisionStatus::Armed,
        &[],
    ));
    runtime
}

#[test]
fn sales_of_the_position_s_own_orders_count() {
    let mut runtime = holding();
    assert!(!runtime.apply_real_exit_fill("0193T0", "9", 4, 100_500_000));
    assert!(!runtime.apply_real_exit_fill("000660", "1", 4, 100_500_000));
    assert!(!runtime.apply_real_exit_fill("0193T0", "1", 0, 100_500_000));
    assert!(!runtime.apply_real_exit_fill("0193T0", "1", 4, 0));
    assert_eq!(runtime.persistable().position.unwrap().qty, 10);

    assert!(!runtime.apply_real_exit_fill("0193T0", "1", 4, 100_500_000));
    assert!(runtime.set_active_exit_order("out".into(), Some("7".into()), None, 1_400));
    assert!(runtime.apply_real_exit_fill("0193T0", "7", 9, 100_000_000));
    let sold = runtime.persistable().position.unwrap();
    assert_eq!((sold.qty, sold.exit_qty), (0, 10));
    assert_eq!(sold.exit_value, 4 * 100_500_000 + 6 * 100_000_000);
    assert_eq!(sold.last_price, 100_000_000);
    assert_eq!(sold.exit_requested_at, Some(1_400));

    runtime.clear_active_exit_order();
    let cleared = runtime.persistable().position.unwrap();
    assert_eq!((cleared.exit_order_no, cleared.exit_intent_id), (None, None));
    assert_eq!(cleared.exit_requested_at, None);

    runtime.sync_position(3, 101_000_000);
    let synced = runtime.persistable().position.unwrap();
    assert_eq!((synced.qty, synced.last_price), (3, 101_000_000));

    runtime.exit_waiting("호가 없음");
    assert_eq!(runtime.phase(), AutomationPhase::ExitPending);
    assert_eq!(runtime.complete_exit().unwrap().qty, 3);
    assert_eq!(runtime.phase(), AutomationPhase::Idle);
    assert!(runtime.complete_exit().is_none());
    assert!(!runtime.set_active_exit_order("out".into(), None, None, 1));
}

#[test]
fn a_target_order_is_let_go_and_put_back() {
    let mut runtime = holding();
    runtime.clear_target_order();
    assert_eq!(runtime.persistable().position.unwrap().target_intent_id, None);
    assert!(runtime.restore_target_intent("again".into()));
    let intent = runtime.persistable().position.unwrap();
    assert_eq!(intent.target_intent_id.as_deref(), Some("again"));
    assert_eq!(intent.target_order_no, None);
    assert!(runtime.restore_target_order("a".into(), "b".into(), "c".into()));
    let order = runtime.persistable().position.unwrap();
    assert_eq!(order.target_order_no.as_deref(), Some("b"));
    assert_eq!(order.target_org_no.as_deref(), Some("c"));

    let mut empty = AutomationRuntime::new(saved(ControlMode::Auto), None);
    assert!(!empty.restore_target_intent("again".into()));
    assert!(!empty.restore_target_order("a".into(), "b".into(), "c".into()));
}

#[test]
fn a_handover_takes_the_position_or_leaves_it() {
    let mut runtime = holding();
    runtime.mark_handoff();
    assert_eq!(runtime.phase(), AutomationPhase::Handoff);
    runtime.abort_handoff("주문 취소 실패");
    assert_eq!(runtime.phase(), AutomationPhase::Holding);
    assert_eq!(runtime.clear_position_for_handoff().unwrap().qty, 10);
    assert_eq!(runtime.phase(), AutomationPhase::Idle);
    runtime.abort_handoff("주문 취소 실패");
    assert_eq!(runtime.phase(), AutomationPhase::Suspended);

    runtime.set_shadow_cash(Some(5));
    runtime.set_mode_after_cleanup(ControlMode::Shadow, Some(1_600), Some(1_000));
    assert_eq!(runtime.phase(), AutomationPhase::Idle);
    let stored = runtime.persistable();
    assert_eq!(stored.mode, ControlMode::Shadow);
    assert_eq!(stored.next_decision_at, Some(1_600));
    assert_eq!(stored.shadow_cash, Some(1_000));
    runtime.set_mode_after_cleanup(ControlMode::Auto, None, Some(1_000));
    assert_eq!(runtime.persistable().shadow_cash, None);
}

#[test]
fn a_group_ends_by_its_time_its_mode_or_a_closed_day() {
    let mut runtime = armed();
    assert!(!runtime.expire_group(309 * SECOND));
    assert!(runtime.expire_group(310 * SECOND));
    assert_eq!(runtime.phase(), AutomationPhase::Idle);

    let mut runtime = armed();
    assert!(runtime.clear_group_for_mode_transition());
    assert!(!runtime.clear_group_for_mode_transition());
    assert_eq!(runtime.phase(), AutomationPhase::Idle);

    let mut runtime = armed();
    assert!(runtime.pause_for_market_day());
    assert_eq!(runtime.phase(), AutomationPhase::Idle);
    assert!(!runtime.pause_for_market_day());
    runtime.set_next_decision_at(Some(1_900));
    assert!(runtime.pause_for_market_day());

    let mut runtime = armed();
    runtime.suspend("체결 대조 실패");
    assert_eq!(runtime.phase(), AutomationPhase::Suspended);
    assert!(runtime.on_trade_tick(tick(184_800, 11)).is_none());
}

#[test]
fn an_analysis_fails_only_at_its_own_revision() {
    let mut runtime = AutomationRuntime::new(saved(ControlMode::Auto), None);
    let revision = runtime.begin_analysis(1_000, Some(1_300)).unwrap();
    assert!(!runtime.fail_analysis(revision + 1, "시간 초과"));
    assert!(runtime.fail_analysis(revision, "시간 초과"));
    assert!(!runtime.fail_analysis(revision, "시간 초과"));
    let shown = snapshot(&runtime, 20);
    assert_eq!(shown.decision_status, Some(AutomationDecisionStatus::Error));
    assert_eq!(runtime.phase(), AutomationPhase::Idle);
}

#[test]
fn a_start_goes_on_with_what_it_finds() {
    let mut runtime = AutomationRuntime::new(saved(ControlMode::Auto), None);
    runtime.finish_reconcile(Some("원장 불일치".into()));
    assert_eq!(runtime.phase(), AutomationPhase::Suspended);
    runtime.finish_reconcile(None);
    assert_eq!(runtime.phase(), AutomationPhase::Idle);
    assert!(runtime.restore_pending_entry(entry()));
    runtime.finish_reconcile(None);
    assert_eq!(runtime.phase(), AutomationPhase::EntryPending);
    runtime.clear_pending_entry();
    assert_eq!(runtime.phase(), AutomationPhase::Idle);
    assert!(runtime.restore_pending_entry(entry()));
    runtime.entry_failed("주문 거부");
    assert_eq!(runtime.phase(), AutomationPhase::Idle);
    assert!(runtime.persistable().pending_entry.is_none());

    let mut runtime = holding();
    runtime.finish_reconcile(None);
    assert_eq!(runtime.phase(), AutomationPhase::Holding);
    assert!(runtime.set_active_exit_order("out".into(), None, None, 1_400));
    runtime.finish_reconcile(None);
    assert_eq!(runtime.phase(), AutomationPhase::ExitPending);

    runtime.set_session_id(Some("session-2".into()));
    assert_eq!(runtime.session_id(), Some("session-2"));
}
