use easy_scalping::clock::{kst_str_to_fake_epoch, now_kst_fake_epoch};
use easy_scalping::ledger::book::{Ledger, LedgerTables};
use easy_scalping::ledger::checks::{
    ensure_changed, i64_to_u64, normalize_limit, optional_u64_to_i64, u64_to_i64, validate_id,
    BrokerOrderKey, LedgerError,
};
use easy_scalping::ledger::kinds::{
    LedgerControlMode, LedgerDecisionStatus, LedgerExecutionKind, LedgerMarketRegime,
    LedgerOrderStatus, LedgerOrderType, LedgerOrigin, LedgerProductKind, LedgerScenarioStatus,
    LedgerSessionStatus, LedgerSetupType, LedgerSide, LedgerTradeStatus,
};
use easy_scalping::ledger::migration::{
    legacy_fill_org, legacy_trading_date, plan_columns, plan_migration, ColumnStep, Columns,
    LegacyOrder, Migration, TableStep,
};
use easy_scalping::ledger::model::{Ids, SCHEMA_VERSION};
use easy_scalping::ledger::records::{
    DecisionQuery, NewDecision, NewDecisionScenario, NewFill, NewFillNotice, NewOrderIntent,
    NewSession, NewTrade, OrderAcknowledgement, ScenarioRecord, ScenarioStatusUpdate,
    StoredDecision, TradeQuery,
};

/// A price in ten-thousandths of a won.
fn fine(won: u64) -> u64 {
    won * 10_000
}

/// A percent in billionths, from its thousandths.
fn thousandths(pct: i64) -> i64 {
    pct * 1_000_000
}

fn fake_epoch(date: &str, time: &str) -> i64 {
    kst_str_to_fake_epoch(date, time).unwrap()
}

fn session() -> NewSession {
    NewSession {
        session_id: "session-1".into(),
        execution_kind: LedgerExecutionKind::Real,
        control_mode: LedgerControlMode::Auto,
        starting_cash: Some(10_000_000),
        started_at: 1_000,
    }
}

fn decision(id: &str, revision: i64) -> NewDecision {
    NewDecision {
        decision_id: id.into(),
        session_id: Some("session-1".into()),
        control_mode: LedgerControlMode::Auto,
        revision,
        as_of_ts: 1_100 + revision,
        expires_at: 1_400 + revision,
        underlying_price: fine(185_000),
        status: LedgerDecisionStatus::Armed,
        model: "gpt-5.6-sol".into(),
        prompt_version: "oco-v1".into(),
        input_tokens: 100,
        cached_input_tokens: 0,
        cache_write_tokens: 12,
        output_tokens: 20,
        reasoning_tokens: 30,
        latency_ms: 800,
        input_hash: Some("input-hash".into()),
        chart_hash: Some("chart-hash".into()),
        market_regime: Some(LedgerMarketRegime::Range),
        decision_summary_ko: Some("저항 반락과 지지 반등 후보를 함께 감시".into()),
        error: None,
        created_at: 1_100 + revision,
    }
}

fn scenarios() -> Vec<NewDecisionScenario> {
    vec![
        NewDecisionScenario {
            product: LedgerProductKind::Leverage,
            setup_type: Some(LedgerSetupType::Continuation),
            reference_price: Some(185_800),
            confirmation_price: Some(186_000),
            invalidation_price: Some(185_400),
            trigger_price: 186_000,
            target_return_pct: thousandths(300),
            rationale_ko: Some("거래량을 동반한 상단 압축 돌파".into()),
            status: LedgerScenarioStatus::Armed,
            reference_observed_at: None,
            terminal_reason: None,
        },
        NewDecisionScenario {
            product: LedgerProductKind::Inverse,
            setup_type: Some(LedgerSetupType::Reversal),
            reference_price: Some(185_500),
            confirmation_price: Some(185_200),
            invalidation_price: Some(185_800),
            trigger_price: 183_500,
            target_return_pct: thousandths(200),
            rationale_ko: Some("저항 반복 시험 뒤 거래량 소진".into()),
            status: LedgerScenarioStatus::Armed,
            reference_observed_at: Some(1_090),
            terminal_reason: None,
        },
    ]
}

fn trade(id: &str, status: LedgerTradeStatus) -> NewTrade {
    NewTrade {
        trade_id: id.into(),
        session_id: Some("session-1".into()),
        execution_kind: LedgerExecutionKind::Real,
        origin: LedgerOrigin::Auto,
        code: "0193T0".into(),
        entry_qty: 10,
        exit_qty: 0,
        entry_avg_price: fine(10_000),
        exit_avg_price: None,
        pnl_rate: None,
        entered_at: 1_100,
        exited_at: None,
        status,
        exit_reason: None,
        updated_at: 1_100,
    }
}

fn intent(id: &str, requested_at: i64, origin: LedgerOrigin) -> NewOrderIntent {
    NewOrderIntent {
        intent_id: id.into(),
        session_id: None,
        trade_id: None,
        decision_id: None,
        scenario_product: None,
        execution_kind: LedgerExecutionKind::Real,
        origin,
        code: "0193T0".into(),
        side: LedgerSide::Buy,
        order_type: LedgerOrderType::IocLimit,
        qty: 10,
        price: Some(10_000),
        requested_at,
    }
}

fn ack(order_no: &str, org_no: &str, at: i64) -> OrderAcknowledgement {
    OrderAcknowledgement {
        broker_order_id: Some(order_no.into()),
        broker_org_no: Some(org_no.into()),
        original_order_id: None,
        status: LedgerOrderStatus::Submitted,
        message: None,
        acknowledged_at: at,
    }
}

fn update(
    product: LedgerProductKind,
    status: LedgerScenarioStatus,
) -> ScenarioStatusUpdate<'static> {
    ScenarioStatusUpdate {
        product,
        status,
        confirmation_started_at: None,
        confirmation_tick_count: 0,
        updated_at: 1_203,
        terminal_reason: None,
        reference_observed_at: None,
    }
}

#[test]
fn a_new_book_has_its_schema_and_keeps_the_control_mode() {
    let mut ledger = Ledger::open_in_memory();
    assert_eq!(ledger.schema_version(), SCHEMA_VERSION);
    assert_eq!(ledger.control_mode().unwrap(), None);

    ledger.set_control_mode(LedgerControlMode::Shadow, 100).unwrap();
    assert_eq!(ledger.control_mode().unwrap(), Some(LedgerControlMode::Shadow));
    assert_eq!(ledger.get_control_mode().unwrap(), Some(LedgerControlMode::Shadow));
}

#[test]
fn a_reset_keeps_records_and_interrupts_what_was_active() {
    let mut ledger = Ledger::open_in_memory();
    ledger.start_session(&session()).unwrap();
    ledger.upsert_trade(&trade("reset-trade", LedgerTradeStatus::Open)).unwrap();
    ledger
        .set_runtime_state("automation_runtime_v1", "{\"stale\":true}", 1_200)
        .unwrap();
    ledger.set_control_mode(LedgerControlMode::Auto, 1_200).unwrap();

    ledger.reset_runtime_state_to_manual(1_300);

    assert_eq!(ledger.control_mode().unwrap(), Some(LedgerControlMode::Manual));
    assert!(ledger.get_runtime_state("automation_runtime_v1").is_none());
    let trades = ledger.list_trades(&TradeQuery::default(), None, 10);
    assert_eq!(trades.items.len(), 1);
    assert_eq!(trades.items[0].status, LedgerTradeStatus::Interrupted);
    assert_eq!(trades.items[0].exit_reason.as_deref(), Some("runtime_reset"));
    assert_eq!(ledger.sessions()[0].status, LedgerSessionStatus::Interrupted);
}

#[test]
fn notices_that_say_the_same_are_kept_each() {
    let mut ledger = Ledger::open_in_memory();
    let notified_at = now_kst_fake_epoch();
    let base = NewFillNotice {
        notice_id: "notice-1".into(),
        source_notice_id: Some("same-broker-hint".into()),
        broker_order_id: "order-1".into(),
        broker_org_no: None,
        code: "0193T0".into(),
        side: LedgerSide::Buy,
        qty: 3,
        price: Some(fine(10_005)),
        notified_at,
        received_at: notified_at,
        raw_json: None,
    };
    ledger.record_fill_notice(&base).unwrap();
    ledger
        .record_fill_notice(&NewFillNotice { notice_id: "notice-2".into(), ..base })
        .unwrap();

    assert_eq!(ledger.notices().len(), 2);
    assert_eq!(
        ledger.notices()[0].notice.source_notice_id,
        ledger.notices()[1].notice.source_notice_id
    );
}

const NO_COLUMNS: Columns = Columns {
    has_llm_decisions: false,
    has_cache_write_tokens: false,
    has_market_regime: false,
    has_decision_scenarios: false,
    has_setup_type: false,
};

#[test]
fn a_store_of_version_two_gets_the_table_of_notices() {
    assert_eq!(
        plan_migration(2).unwrap(),
        Migration::From(TableStep::AddNotices)
    );
    assert!(plan_columns(NO_COLUMNS).is_empty());
    assert_eq!(plan_migration(SCHEMA_VERSION).unwrap(), Migration::UpToDate);
    assert_eq!(plan_migration(0).unwrap(), Migration::From(TableStep::CreateAll));
    assert!(matches!(plan_migration(6), Err(LedgerError::UnsupportedSchema(6))));
}

#[test]
fn a_store_of_version_three_gets_the_column_of_written_tokens() {
    assert_eq!(plan_migration(3).unwrap(), Migration::From(TableStep::Keep));
    assert_eq!(
        plan_columns(Columns { has_llm_decisions: true, ..NO_COLUMNS }),
        vec![ColumnStep::CacheWriteTokens, ColumnStep::DecisionMetadata]
    );
}

#[test]
fn a_store_of_version_four_gets_metadata_that_may_be_absent() {
    assert_eq!(plan_migration(4).unwrap(), Migration::From(TableStep::Keep));
    assert_eq!(
        plan_columns(Columns {
            has_llm_decisions: true,
            has_cache_write_tokens: true,
            has_decision_scenarios: true,
            ..NO_COLUMNS
        }),
        vec![ColumnStep::DecisionMetadata, ColumnStep::ScenarioMetadata]
    );

    let mut old = decision("legacy-v4", 1);
    old.market_regime = None;
    old.decision_summary_ko = None;
    let ledger = Ledger::restore(LedgerTables {
        sessions: vec![],
        decisions: vec![StoredDecision { id: 1, decision: old }],
        scenarios: vec![ScenarioRecord {
            id: 1,
            decision_id: "legacy-v4".into(),
            product: LedgerProductKind::Inverse,
            setup_type: None,
            reference_price: None,
            confirmation_price: None,
            invalidation_price: None,
            trigger_price: 184_900,
            target_return_pct: thousandths(300),
            rationale_ko: None,
            status: LedgerScenarioStatus::Armed,
            reference_observed_at: None,
            terminal_reason: None,
            confirmation_started_at: None,
            confirmation_tick_count: 0,
            updated_at: 1_101,
        }],
        orders: vec![],
        fills: vec![],
        notices: vec![],
        trades: vec![],
        state: vec![],
        ids: Ids { session: 1, decision: 2, scenario: 2, order: 1, fill: 1, notice: 1, trade: 1 },
    })
    .unwrap();
    let page = ledger.list_decisions(&DecisionQuery::default(), None, 10);
    assert_eq!(page.items.len(), 1);
    assert_eq!(page.items[0].market_regime, None);
    assert_eq!(page.items[0].decision_summary_ko, None);
    assert_eq!(page.items[0].scenarios.len(), 1);
    let scenario = &page.items[0].scenarios[0];
    assert_eq!(scenario.setup_type, None);
    assert_eq!(scenario.reference_price, None);
    assert_eq!(scenario.confirmation_price, None);
    assert_eq!(scenario.invalidation_price, None);
    assert_eq!(scenario.rationale_ko, None);
    assert_eq!(scenario.reference_observed_at, None);
    assert_eq!(scenario.terminal_reason, None);
    assert_eq!(scenario.trigger_price, 184_900);
}

#[test]
fn a_decision_and_its_scenarios_are_recorded_and_updated_together() {
    let mut ledger = Ledger::open_in_memory();
    ledger.start_session(&session()).unwrap();
    ledger.record_decision(&decision("decision-1", 1), &scenarios()).unwrap();

    ledger
        .update_decision_and_scenarios(
            "decision-1",
            Some(LedgerDecisionStatus::Triggered),
            None,
            &[
                ScenarioStatusUpdate {
                    confirmation_started_at: Some(1_200),
                    confirmation_tick_count: 2,
                    updated_at: 1_202,
                    reference_observed_at: Some(1_198),
                    ..update(LedgerProductKind::Leverage, LedgerScenarioStatus::Confirming)
                },
                ScenarioStatusUpdate {
                    terminal_reason: Some("무효화가 선행 침범"),
                    reference_observed_at: Some(1_090),
                    ..update(LedgerProductKind::Inverse, LedgerScenarioStatus::Invalidated)
                },
            ],
        )
        .unwrap();

    let page = ledger.list_decisions(&DecisionQuery::default(), None, 10);
    assert_eq!(page.items.len(), 1);
    let item = &page.items[0];
    assert_eq!(item.status, LedgerDecisionStatus::Triggered);
    assert_eq!(item.cache_write_tokens, 12);
    assert_eq!(item.market_regime, Some(LedgerMarketRegime::Range));
    assert_eq!(
        item.decision_summary_ko.as_deref(),
        Some("저항 반락과 지지 반등 후보를 함께 감시")
    );
    assert_eq!(item.scenarios.len(), 2);
    assert_eq!(item.scenarios[0].status, LedgerScenarioStatus::Confirming);
    assert_eq!(item.scenarios[0].confirmation_tick_count, 2);
    assert_eq!(item.scenarios[0].setup_type, Some(LedgerSetupType::Continuation));
    assert_eq!(item.scenarios[0].reference_price, Some(185_800));
    assert_eq!(item.scenarios[0].confirmation_price, Some(186_000));
    assert_eq!(item.scenarios[0].invalidation_price, Some(185_400));
    assert_eq!(
        item.scenarios[0].rationale_ko.as_deref(),
        Some("거래량을 동반한 상단 압축 돌파")
    );
    assert_eq!(item.scenarios[0].reference_observed_at, Some(1_198));
    assert_eq!(item.scenarios[0].terminal_reason, None);
    assert_eq!(item.scenarios[1].status, LedgerScenarioStatus::Invalidated);
    assert_eq!(
        item.scenarios[1].terminal_reason.as_deref(),
        Some("무효화가 선행 침범")
    );
}

#[test]
fn an_update_of_a_scenario_that_is_not_there_changes_nothing() {
    let mut ledger = Ledger::open_in_memory();
    ledger.start_session(&session()).unwrap();
    let one = vec![scenarios().remove(0)];
    ledger.record_decision(&decision("decision-atomic", 1), &one).unwrap();

    let result = ledger.update_decision_and_scenarios(
        "decision-atomic",
        Some(LedgerDecisionStatus::Triggered),
        None,
        &[
            ScenarioStatusUpdate {
                confirmation_started_at: Some(1_200),
                confirmation_tick_count: 2,
                updated_at: 1_202,
                ..update(LedgerProductKind::Leverage, LedgerScenarioStatus::Confirming)
            },
            ScenarioStatusUpdate {
                terminal_reason: Some("존재하지 않는 행"),
                ..update(LedgerProductKind::Inverse, LedgerScenarioStatus::Invalidated)
            },
        ],
    );
    assert!(matches!(result, Err(LedgerError::NotFound(_))));

    let page = ledger.list_decisions(&DecisionQuery::default(), None, 10);
    assert_eq!(page.items[0].status, LedgerDecisionStatus::Armed);
    assert_eq!(page.items[0].scenarios[0].status, LedgerScenarioStatus::Armed);
    assert_eq!(page.items[0].scenarios[0].confirmation_tick_count, 0);
}

#[test]
fn a_restart_closes_what_it_cannot_restore() {
    let mut ledger = Ledger::open_in_memory();
    ledger.start_session(&session()).unwrap();

    let mut within_slot = decision("decision-restart-discarded", 1);
    within_slot.expires_at = 2_000;
    ledger.record_decision(&within_slot, &scenarios()).unwrap();

    let mut expired = decision("decision-restart-expired", 2);
    expired.expires_at = 1_200;
    ledger.record_decision(&expired, &scenarios()).unwrap();

    let mut triggered = decision("decision-restart-triggered", 3);
    triggered.status = LedgerDecisionStatus::Triggered;
    ledger.record_decision(&triggered, &scenarios()).unwrap();

    assert_eq!(ledger.close_unrestorable_oco_decisions(1_500), 2);

    let page = ledger.list_decisions(&DecisionQuery::default(), None, 10);
    let find = |id: &str| page.items.iter().find(|item| item.decision_id == id).unwrap();

    let discarded = find("decision-restart-discarded");
    assert_eq!(discarded.status, LedgerDecisionStatus::Discarded);
    assert!(discarded
        .scenarios
        .iter()
        .all(|scenario| scenario.status == LedgerScenarioStatus::Replaced));
    assert!(discarded.scenarios.iter().all(|scenario| {
        scenario.terminal_reason.as_deref() == Some("앱 재시작으로 메모리 OCO를 복원하지 않음")
    }));

    let expired = find("decision-restart-expired");
    assert_eq!(expired.status, LedgerDecisionStatus::Expired);
    assert!(expired
        .scenarios
        .iter()
        .all(|scenario| scenario.status == LedgerScenarioStatus::Expired));

    let triggered = find("decision-restart-triggered");
    assert_eq!(triggered.status, LedgerDecisionStatus::Triggered);
    assert!(triggered
        .scenarios
        .iter()
        .all(|scenario| scenario.status == LedgerScenarioStatus::Armed));
}

#[test]
fn ends_by_a_passed_price_or_an_invalidation_come_back_as_recorded() {
    let mut ledger = Ledger::open_in_memory();
    ledger.start_session(&session()).unwrap();
    let mut ended = decision("decision-terminal", 1);
    ended.status = LedgerDecisionStatus::Missed;
    let mut sides = scenarios();
    sides[0].status = LedgerScenarioStatus::Missed;
    sides[0].terminal_reason = Some("응답 적용 전에 확인가 통과".into());
    sides[1].status = LedgerScenarioStatus::Invalidated;
    sides[1].terminal_reason = Some("응답 적용 전에 무효화가 침범".into());

    ledger.record_decision(&ended, &sides).unwrap();

    let page = ledger.list_decisions(&DecisionQuery::default(), None, 10);
    assert_eq!(page.items[0].status, LedgerDecisionStatus::Missed);
    assert_eq!(page.items[0].scenarios[0].status, LedgerScenarioStatus::Missed);
    assert_eq!(page.items[0].scenarios[1].status, LedgerScenarioStatus::Invalidated);
}

#[test]
fn two_scenarios_of_one_product_record_nothing() {
    let mut ledger = Ledger::open_in_memory();
    ledger.start_session(&session()).unwrap();
    let mut duplicated = scenarios();
    duplicated[1].product = LedgerProductKind::Leverage;

    assert!(ledger
        .record_decision(&decision("decision-invalid", 1), &duplicated)
        .is_err());
    assert!(ledger
        .list_decisions(&DecisionQuery::default(), None, 10)
        .items
        .is_empty());
}

#[test]
fn an_order_its_reply_and_its_fill_are_recorded_once() {
    let mut ledger = Ledger::open_in_memory();
    ledger.start_session(&session()).unwrap();
    ledger.record_decision(&decision("decision-1", 1), &scenarios()).unwrap();
    ledger
        .record_order_intent(&NewOrderIntent {
            session_id: Some("session-1".into()),
            trade_id: Some("trade-1".into()),
            decision_id: Some("decision-1".into()),
            scenario_product: Some(LedgerProductKind::Leverage),
            qty: 100,
            ..intent("intent-1", 1_300, LedgerOrigin::Auto)
        })
        .unwrap();
    ledger
        .record_order_ack("intent-1", &ack("kis-order-1", "org-1", 1_301))
        .unwrap();

    let fill = NewFill {
        fill_key: "kis-order-1/fill-1".into(),
        intent_id: Some("intent-1".into()),
        broker_order_id: Some("kis-order-1".into()),
        broker_fill_id: Some("fill-1".into()),
        execution_kind: LedgerExecutionKind::Real,
        origin: LedgerOrigin::Auto,
        code: "0193T0".into(),
        side: LedgerSide::Buy,
        qty: 40,
        price: fine(9_980),
        filled_at: 1_302,
        raw_json: None,
    };
    let number = ledger.ids().fill;
    assert!(ledger.record_fill(&fill).unwrap());
    assert!(!ledger.record_fill(&fill).unwrap());
    assert_eq!(ledger.fills().len(), 1);
    assert_eq!(ledger.ids().fill, number + 2);

    let order = ledger.get_order("intent-1").unwrap();
    assert_eq!(order.broker_order_id.as_deref(), Some("kis-order-1"));
    assert_eq!(order.status, LedgerOrderStatus::Submitted);

    let key = BrokerOrderKey::new("19700101", "org-1", "kis-order-1").unwrap();
    assert_eq!(
        ledger.fill_totals_for_broker_order(&key).unwrap(),
        (40, Some(40 * fine(9_980) as u128))
    );
    assert_eq!(
        ledger
            .broker_order_org_candidates("19700101", "kis-order-1", "0193T0", LedgerSide::Buy)
            .unwrap(),
        vec!["org-1".to_string()]
    );
}

#[test]
fn an_order_is_taken_for_sending_once() {
    let mut ledger = Ledger::open_in_memory();
    ledger
        .record_order_intent(&NewOrderIntent {
            trade_id: Some("dispatch-trade".into()),
            scenario_product: Some(LedgerProductKind::Leverage),
            ..intent("dispatch-once", 1_300, LedgerOrigin::Auto)
        })
        .unwrap();

    assert!(ledger.begin_order_dispatch("dispatch-once", 1_301).unwrap());
    assert!(!ledger.begin_order_dispatch("dispatch-once", 1_302).unwrap());
    assert!(!ledger.begin_order_dispatch("unknown", 1_302).unwrap());
    assert_eq!(
        ledger.get_order("dispatch-once").unwrap().status,
        LedgerOrderStatus::Dispatching
    );
    let open = ledger.list_unresolved_real_orders("19700101").unwrap();
    assert_eq!(open.len(), 1);
}

#[test]
fn orders_of_one_number_are_told_apart_by_day_and_organisation() {
    let mut ledger = Ledger::open_in_memory();
    let day1 = fake_epoch("20260721", "100000");
    let day2 = fake_epoch("20260722", "100000");

    for (intent_id, requested_at, origin, org_no) in [
        ("day1-auto", day1, LedgerOrigin::Auto, "org-a"),
        ("day2-manual", day2, LedgerOrigin::Manual, "org-a"),
        ("day2-auto", day2 + 1, LedgerOrigin::Auto, "org-b"),
    ] {
        ledger
            .record_order_intent(&intent(intent_id, requested_at, origin))
            .unwrap();
        ledger
            .record_order_ack(intent_id, &ack("reused-order", org_no, requested_at + 1))
            .unwrap();
    }

    let cases = [
        ("20260721", "org-a", "day1-auto", day1, 3_u64),
        ("20260722", "org-a", "day2-manual", day2, 5_u64),
        ("20260722", "org-b", "day2-auto", day2 + 1, 7_u64),
    ];
    for (date, org_no, intent_id, filled_at, qty) in cases {
        let key = BrokerOrderKey::new(date, org_no, "reused-order").unwrap();
        let fill = NewFill {
            // The broker may use the number of a fill again, another day or for another
            // organisation.
            fill_key: "fill-1".into(),
            intent_id: Some(intent_id.into()),
            broker_order_id: Some("reused-order".into()),
            broker_fill_id: Some("fill-1".into()),
            execution_kind: LedgerExecutionKind::Real,
            origin: if intent_id.contains("manual") {
                LedgerOrigin::Manual
            } else {
                LedgerOrigin::Auto
            },
            code: "0193T0".into(),
            side: LedgerSide::Buy,
            qty,
            price: fine(10_000),
            filled_at,
            raw_json: None,
        };
        assert!(ledger.record_fill_for_broker_order(&key, &fill).unwrap());
        assert!(!ledger.record_fill_for_broker_order(&key, &fill).unwrap());
        assert_eq!(ledger.filled_qty_for_broker_order(&key).unwrap(), qty);
    }

    let old_auto = BrokerOrderKey::new("20260721", "org-a", "reused-order").unwrap();
    let today_manual = BrokerOrderKey::new("20260722", "org-a", "reused-order").unwrap();
    let today_auto = BrokerOrderKey::new("20260722", "org-b", "reused-order").unwrap();
    assert!(ledger.is_auto_broker_order_key(&old_auto).unwrap());
    assert!(!ledger.is_auto_broker_order_key(&today_manual).unwrap());
    assert!(ledger.is_auto_broker_order_key(&today_auto).unwrap());
    assert_eq!(
        ledger
            .get_auto_order_by_broker_key(&today_auto)
            .unwrap()
            .unwrap()
            .intent_id,
        "day2-auto"
    );

    let ambiguous_ws_fill = NewFill {
        fill_key: "ambiguous-fill".into(),
        intent_id: None,
        broker_order_id: Some("reused-order".into()),
        broker_fill_id: Some("ambiguous-fill".into()),
        execution_kind: LedgerExecutionKind::Real,
        origin: LedgerOrigin::External,
        code: "0193T0".into(),
        side: LedgerSide::Buy,
        qty: 1,
        price: fine(10_000),
        filled_at: day2 + 2,
        raw_json: None,
    };
    assert!(matches!(
        ledger.record_fill(&ambiguous_ws_fill),
        Err(LedgerError::InvalidInput(_))
    ));

    assert_eq!(ledger.get_order("day2-auto").unwrap().trading_date, "20260722");
}

#[test]
fn a_store_of_version_one_gets_the_day_and_organisation_of_orders() {
    assert_eq!(plan_migration(1).unwrap(), Migration::From(TableStep::ScopeOrders));
    let order_date = legacy_trading_date(1_784_601_000);
    let fill_date = legacy_trading_date(1_784_601_001);
    assert_eq!(order_date, fill_date);
    assert_eq!(order_date, "20260721");
    assert_eq!(legacy_trading_date(i64::MAX), "19700101");

    let orders = vec![LegacyOrder {
        intent_id: "legacy-intent".into(),
        broker_order_id: Some("order-1".into()),
        broker_org_no: Some("org-1".into()),
        trading_date: order_date.clone(),
    }];
    let number = Some("order-1".to_string());
    assert_eq!(
        legacy_fill_org(&orders, &Some("legacy-intent".into()), &number, &fill_date),
        "org-1"
    );
    assert_eq!(legacy_fill_org(&orders, &None, &number, &fill_date), "org-1");
    assert_eq!(legacy_fill_org(&orders, &None, &number, "20260722"), "");
    let two = vec![
        LegacyOrder {
            intent_id: "a".into(),
            broker_order_id: number.clone(),
            broker_org_no: Some("org-1".into()),
            trading_date: order_date.clone(),
        },
        LegacyOrder {
            intent_id: "b".into(),
            broker_order_id: number.clone(),
            broker_org_no: Some("org-2".into()),
            trading_date: order_date,
        },
    ];
    assert_eq!(legacy_fill_org(&two, &None, &number, &fill_date), "");
}

#[test]
fn trades_and_decisions_come_in_pages() {
    let mut ledger = Ledger::open_in_memory();
    ledger.start_session(&session()).unwrap();
    for index in 0..3 {
        ledger
            .record_decision(&decision(&format!("decision-{index}"), index), &scenarios())
            .unwrap();
        ledger
            .upsert_trade(&NewTrade {
                entry_qty: 100,
                exit_qty: 100,
                exit_avg_price: Some(fine(10_030)),
                pnl_rate: Some(thousandths(300)),
                entered_at: 2_000 + index,
                exited_at: Some(2_100 + index),
                exit_reason: Some("target".into()),
                updated_at: 2_100 + index,
                ..trade(&format!("trade-{index}"), LedgerTradeStatus::Closed)
            })
            .unwrap();
    }

    let first = ledger.list_trades(&TradeQuery::default(), None, 2);
    assert_eq!(first.items.len(), 2);
    assert_eq!(first.items[0].trade_id, "trade-2");
    assert!(first.next_cursor.is_some());

    let second = ledger.list_trades(&TradeQuery::default(), first.next_cursor, 2);
    assert_eq!(second.items.len(), 1);
    assert_eq!(second.items[0].trade_id, "trade-0");
    assert_eq!(second.next_cursor, None);

    let decision_page = ledger.list_decisions(&DecisionQuery::default(), None, 2);
    assert_eq!(decision_page.items.len(), 2);
    assert_eq!(decision_page.items[0].decision_id, "decision-2");
    assert!(decision_page.next_cursor.is_some());
}

#[test]
fn an_updated_trade_keeps_its_number_and_uses_one_up() {
    let mut ledger = Ledger::open_in_memory();
    ledger.start_session(&session()).unwrap();
    let first = ledger.upsert_trade(&trade("trade-1", LedgerTradeStatus::Open)).unwrap();
    let closed = trade("trade-1", LedgerTradeStatus::Closed);
    assert_eq!(ledger.upsert_trade(&closed).unwrap(), first);
    let second = ledger.upsert_trade(&trade("trade-2", LedgerTradeStatus::Open)).unwrap();
    assert_eq!(second, first + 2);
}

#[test]
fn queries_pick_by_kind() {
    let mut ledger = Ledger::open_in_memory();
    ledger.start_session(&session()).unwrap();
    ledger.upsert_trade(&trade("a", LedgerTradeStatus::Open)).unwrap();
    let mut shadow = trade("b", LedgerTradeStatus::Open);
    shadow.execution_kind = LedgerExecutionKind::Shadow;
    ledger.upsert_trade(&shadow).unwrap();
    let real = TradeQuery { execution_kind: Some(LedgerExecutionKind::Real), ..TradeQuery::default() };
    let page = ledger.list_trades(&real, None, 10);
    assert_eq!(page.items.len(), 1);
    assert_eq!(page.items[0].trade_id, "a");
    // A trade that is recorded again keeps its number.
    let again = ledger.upsert_trade(&trade("a", LedgerTradeStatus::Closed)).unwrap();
    assert_eq!(again, page.items[0].id);
    assert_eq!(ledger.trades().len(), 2);
}

#[test]
fn sessions_start_once_and_end() {
    let mut ledger = Ledger::open_in_memory();
    ledger.start_session(&session()).unwrap();
    assert!(matches!(ledger.start_session(&session()), Err(LedgerError::Sql(_))));
    assert!(matches!(
        ledger.end_session("session-1", LedgerSessionStatus::Active, 2_000),
        Err(LedgerError::InvalidInput(_))
    ));
    assert!(matches!(
        ledger.end_session("unknown", LedgerSessionStatus::Closed, 2_000),
        Err(LedgerError::NotFound(_))
    ));
    ledger
        .end_session("session-1", LedgerSessionStatus::Closed, 2_000)
        .unwrap();
    assert_eq!(ledger.sessions()[0].ended_at, Some(2_000));
}

#[test]
fn state_is_stored_read_and_deleted() {
    let mut ledger = Ledger::open_in_memory();
    assert!(matches!(
        ledger.set_runtime_state(" ", "{}", 1),
        Err(LedgerError::InvalidInput(_))
    ));
    ledger.set_runtime_state("k", "{}", 1).unwrap();
    ledger.set_runtime_state("k", "[]", 2).unwrap();
    assert_eq!(ledger.get_runtime_state("k"), Some("[]"));
    assert_eq!(ledger.state().len(), 1);
    ledger.delete_runtime_state("k").unwrap();
    assert_eq!(ledger.get_runtime_state("k"), None);
    ledger.set_runtime_state("control_mode", "\"?\"", 3).unwrap();
    assert_eq!(ledger.control_mode().unwrap_err(), LedgerError::Json("\"?\"".into()));
}

#[test]
fn what_the_ledger_refuses() {
    assert!(validate_id("code", "0193T0").is_ok());
    assert!(matches!(validate_id("code", "  "), Err(LedgerError::InvalidInput(_))));
    assert!(matches!(u64_to_i64(u64::MAX, "qty"), Err(LedgerError::OutOfRange("qty"))));
    assert_eq!(u64_to_i64(7, "qty").unwrap(), 7);
    assert_eq!(optional_u64_to_i64(None, "qty").unwrap(), None);
    assert_eq!(i64_to_u64(-1), None);
    assert_eq!(i64_to_u64(1), Some(1));
    assert!(matches!(ensure_changed(0, "order", "x"), Err(LedgerError::NotFound(_))));
    assert!(ensure_changed(1, "order", "x").is_ok());
    assert_eq!(normalize_limit(0), 50);
    assert_eq!(normalize_limit(10), 10);
    assert_eq!(normalize_limit(1_000), 200);
    assert!(BrokerOrderKey::new("20261399", "org", "1").is_err());
    assert!(BrokerOrderKey::new("20260721", "org", " ").is_err());
    assert_eq!(
        BrokerOrderKey::from_fake_epoch(1_784_601_000, "org", "1").unwrap().trading_date,
        "20260721"
    );
    assert_eq!(
        LedgerError::OutOfRange("qty").text(),
        "장부 값이 허용 범위를 벗어났습니다: qty"
    );
    assert_eq!(
        LedgerError::UnsupportedSchema(9).text(),
        "지원하지 않는 장부 스키마 버전입니다: 9"
    );
    assert_eq!(LedgerError::LockPoisoned.text(), "장부 잠금이 손상되었습니다");
}

#[test]
fn tables_that_are_not_in_order_make_no_book() {
    let mut ledger = Ledger::open_in_memory();
    ledger.start_session(&session()).unwrap();
    let row = ledger.sessions()[0].clone();
    let tables = LedgerTables {
        sessions: vec![row.clone(), row],
        decisions: vec![],
        scenarios: vec![],
        orders: vec![],
        fills: vec![],
        notices: vec![],
        trades: vec![],
        state: vec![],
        ids: Ids { session: 3, decision: 1, scenario: 1, order: 1, fill: 1, notice: 1, trade: 1 },
    };
    assert!(Ledger::restore(tables).is_none());
}

#[test]
fn words_of_the_ledger_are_read_back() {
    for kind in [LedgerOrigin::Auto, LedgerOrigin::Manual, LedgerOrigin::External] {
        assert_eq!(LedgerOrigin::from_stored(kind.as_str()), Some(kind));
    }
    assert_eq!(LedgerOrderStatus::CancelPending.as_str(), "cancel_pending");
    assert_eq!(LedgerScenarioStatus::from_stored("missed"), Some(LedgerScenarioStatus::Missed));
    assert_eq!(LedgerTradeStatus::from_stored("?"), None);
}
