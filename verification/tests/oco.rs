use easy_scalping::automation::oco::{
    underlying_tick_size, validate_decision, ArmError, DecisionValidationError, OcoGroup,
    ScenarioInvalidReason, ScenarioSeed, TickOutcome, TradeTick, TriggeredScenario,
    ValidatedDecision, ValidatedScenario, CONFIRMATION_DURATION,
};
use easy_scalping::types::{ModelScenario, ProductKind, ScenarioStatus};

const SECOND: u128 = 1_000_000_000;

/// A target in hundredths of a percent.
fn model(product: ProductKind, trigger_price: u64, target: i64) -> ModelScenario {
    ModelScenario {
        product,
        trigger_price,
        target_return_pct: Some(target * 10_000_000),
        setup: None,
    }
}

fn valid_two_way_decision() -> ValidatedDecision {
    validate_decision(
        185_000,
        &[
            model(ProductKind::Leverage, 185_051, 30),
            model(ProductKind::Inverse, 184_949, 20),
        ],
    )
    .unwrap()
}

fn group() -> OcoGroup {
    OcoGroup::arm(77, 9, &valid_two_way_decision(), 10 * SECOND, 310 * SECOND).unwrap()
}

fn tick(sequence: u64, second: u64, price: u64) -> TradeTick {
    TradeTick { sequence, price, volume: 1, at: second as u128 * SECOND }
}

#[test]
fn an_empty_decision_stays_out() {
    let decision = validate_decision(185_000, &[]).unwrap();
    assert!(decision.scenarios.is_empty());
    assert!(decision.rejected.is_empty());
}

#[test]
fn both_directions_are_aligned_away_from_entry() {
    let decision = valid_two_way_decision();
    assert_eq!(decision.scenarios.len(), 2);
    assert_eq!(decision.scenarios[0].trigger_price, 185_100);
    assert_eq!(decision.scenarios[1].trigger_price, 184_900);
    assert_eq!(decision.scenarios[0].target_return_pct, 300_000_000);
}

#[test]
fn alignment_is_safe_at_the_edge_of_a_band() {
    let decision = validate_decision(
        19_900,
        &[
            model(ProductKind::Leverage, 19_999, 20),
            model(ProductKind::Inverse, 19_899, 20),
        ],
    )
    .unwrap();
    assert_eq!(decision.scenarios[0].trigger_price, 20_000);
    assert_eq!(decision.scenarios[1].trigger_price, 19_890);
    assert_eq!(underlying_tick_size(20_000), 50);
}

#[test]
fn three_scenarios_or_one_product_twice_void_the_decision() {
    let too_many = vec![
        model(ProductKind::Leverage, 186_000, 20),
        model(ProductKind::Inverse, 184_000, 20),
        model(ProductKind::Leverage, 187_000, 30),
    ];
    assert_eq!(
        validate_decision(185_000, &too_many),
        Err(DecisionValidationError::TooManyScenarios { count: 3 })
    );

    let duplicate = vec![
        model(ProductKind::Leverage, 186_000, 20),
        // Wrong in itself as well: the rule on products comes first.
        model(ProductKind::Leverage, 184_000, 990),
    ];
    assert_eq!(
        validate_decision(185_000, &duplicate),
        Err(DecisionValidationError::DuplicateProduct(ProductKind::Leverage))
    );
}

#[test]
fn a_wrong_direction_or_target_excludes_that_scenario_alone() {
    let decision = validate_decision(
        185_000,
        &[
            model(ProductKind::Leverage, 184_000, 30),
            model(ProductKind::Inverse, 184_000, 25),
        ],
    )
    .unwrap();
    assert!(decision.scenarios.is_empty());
    assert_eq!(decision.rejected.len(), 2);
    assert_eq!(decision.rejected[0].reason, ScenarioInvalidReason::WrongDirection);
    assert_eq!(decision.rejected[1].reason, ScenarioInvalidReason::InvalidTargetReturn);
    assert!(decision
        .rejected
        .iter()
        .all(|scenario| scenario.status == ScenarioStatus::Invalid));
}

#[test]
fn targets_are_tenths_between_the_bounds() {
    for target in [20, 30, 190, 200] {
        let result =
            validate_decision(185_000, &[model(ProductKind::Leverage, 186_000, target)]).unwrap();
        assert_eq!(result.scenarios.len(), 1, "target={target}");
    }
    for target in [10, 25, 210] {
        let result =
            validate_decision(185_000, &[model(ProductKind::Leverage, 186_000, target)]).unwrap();
        assert!(result.scenarios.is_empty(), "target={target}");
    }
    let mut not_finite = model(ProductKind::Leverage, 186_000, 20);
    not_finite.target_return_pct = None;
    assert!(validate_decision(185_000, &[not_finite]).unwrap().scenarios.is_empty());
}

#[test]
fn a_trigger_price_that_cannot_be_aligned_is_rejected() {
    let decision =
        validate_decision(185_000, &[model(ProductKind::Inverse, 0, 20)]).unwrap();
    assert_eq!(decision.rejected[0].reason, ScenarioInvalidReason::InvalidTriggerPrice);
}

#[test]
fn no_price_or_nothing_to_arm_is_refused() {
    assert_eq!(
        validate_decision(0, &[]),
        Err(DecisionValidationError::InvalidSnapshotPrice)
    );
    let empty = validate_decision(185_000, &[]).unwrap();
    assert_eq!(
        OcoGroup::arm(1, 1, &empty, SECOND, 2 * SECOND).unwrap_err(),
        ArmError::NoScenarios
    );
    assert_eq!(
        OcoGroup::arm(1, 1, &valid_two_way_decision(), 2 * SECOND, 2 * SECOND).unwrap_err(),
        ArmError::InvalidExpiry
    );
    let mut many = valid_two_way_decision();
    many.scenarios.append(&mut valid_two_way_decision().scenarios);
    assert_eq!(
        OcoGroup::arm(1, 1, &many, SECOND, 2 * SECOND).unwrap_err(),
        ArmError::TooManyScenarios { count: 4 }
    );
}

#[test]
fn trades_before_arming_and_without_volume_do_not_count() {
    let mut group = group();
    assert_eq!(group.on_trade_tick(tick(1, 9, 185_100)), TickOutcome::Ignored);
    assert_eq!(group.on_trade_tick(tick(2, 10, 185_100)), TickOutcome::Ignored);

    let mut no_volume = tick(3, 11, 185_100);
    no_volume.volume = 0;
    assert_eq!(group.on_trade_tick(no_volume), TickOutcome::Ignored);
    assert_eq!(
        group.scenario(ProductKind::Leverage).unwrap().status,
        ScenarioStatus::Armed
    );
}

#[test]
fn the_trade_after_three_trades_and_three_seconds_triggers() {
    let mut group = group();
    assert_eq!(group.on_trade_tick(tick(1, 11, 185_100)), TickOutcome::Updated);
    assert_eq!(group.on_trade_tick(tick(2, 12, 185_200)), TickOutcome::Updated);
    assert_eq!(group.on_trade_tick(tick(3, 14, 185_300)), TickOutcome::Updated);
    assert!(group.winner().is_none());
    assert_eq!(group.scenario(ProductKind::Leverage).unwrap().confirming_ticks, 3);

    let outcome = group.on_trade_tick(tick(4, 15, 185_100));
    let TickOutcome::Triggered(triggered) = outcome else {
        panic!("the fourth trade must trigger");
    };
    assert_eq!(triggered.group_id, 77);
    assert_eq!(triggered.revision, 9);
    assert_eq!(triggered.scenario.product, ProductKind::Leverage);
    assert_eq!(
        group.scenario(ProductKind::Leverage).unwrap().status,
        ScenarioStatus::Triggered
    );
    assert_eq!(
        group.scenario(ProductKind::Inverse).unwrap().status,
        ScenarioStatus::CancelledByOco
    );
}

#[test]
fn trades_or_time_alone_do_not_trigger() {
    let mut fast = group();
    assert_eq!(fast.on_trade_tick(tick(1, 11, 185_100)), TickOutcome::Updated);
    assert_eq!(fast.on_trade_tick(tick(2, 11, 185_100)), TickOutcome::Updated);
    assert_eq!(fast.on_trade_tick(tick(3, 11, 185_100)), TickOutcome::Updated);
    assert_eq!(fast.on_trade_tick(tick(4, 13, 185_100)), TickOutcome::Updated);
    assert!(fast.winner().is_none());
    assert!(matches!(
        fast.on_trade_tick(tick(5, 14, 185_100)),
        TickOutcome::Triggered(_)
    ));

    let mut slow = group();
    assert_eq!(slow.on_trade_tick(tick(1, 11, 185_100)), TickOutcome::Updated);
    assert_eq!(slow.on_trade_tick(tick(2, 20, 185_100)), TickOutcome::Updated);
    assert_eq!(slow.on_trade_tick(tick(3, 21, 185_100)), TickOutcome::Updated);
    assert!(matches!(
        slow.on_trade_tick(tick(4, 22, 185_100)),
        TickOutcome::Triggered(_)
    ));
}

#[test]
fn a_price_back_inside_starts_over() {
    let mut group = group();
    group.on_trade_tick(tick(1, 11, 185_100));
    group.on_trade_tick(tick(2, 12, 185_200));
    assert_eq!(group.on_trade_tick(tick(3, 13, 185_099)), TickOutcome::Updated);

    let state = group.scenario(ProductKind::Leverage).unwrap();
    assert_eq!(state.status, ScenarioStatus::Armed);
    assert_eq!(state.confirming_ticks, 0);
    assert_eq!(state.confirming_since, None);

    group.on_trade_tick(tick(4, 20, 185_100));
    group.on_trade_tick(tick(5, 21, 185_100));
    group.on_trade_tick(tick(6, 22, 185_100));
    assert_eq!(group.on_trade_tick(tick(7, 22, 185_100)), TickOutcome::Updated);
    assert!(group.winner().is_none());
}

#[test]
fn a_reconnect_starts_over_and_drops_old_trades() {
    let mut group = group();
    group.on_trade_tick(tick(10, 11, 185_100));
    group.on_trade_tick(tick(11, 12, 185_100));

    assert_eq!(group.reset_for_reconnect(13 * SECOND), 1);
    let state = group.scenario(ProductKind::Leverage).unwrap();
    assert_eq!(state.status, ScenarioStatus::Armed);
    assert_eq!(state.confirming_ticks, 0);

    assert_eq!(group.on_trade_tick(tick(1, 13, 185_100)), TickOutcome::Ignored);
    assert_eq!(group.on_trade_tick(tick(1, 14, 185_100)), TickOutcome::Updated);
    assert_eq!(group.scenario(ProductKind::Leverage).unwrap().confirming_ticks, 1);
}

#[test]
fn a_trade_counts_once() {
    let mut group = group();
    group.on_trade_tick(tick(5, 11, 185_100));
    assert_eq!(group.on_trade_tick(tick(5, 12, 185_100)), TickOutcome::Ignored);
    assert_eq!(group.on_trade_tick(tick(4, 13, 185_100)), TickOutcome::Ignored);
    assert_eq!(group.scenario(ProductKind::Leverage).unwrap().confirming_ticks, 1);
}

#[test]
fn the_inverse_first_cancels_the_leverage() {
    let mut group = group();
    group.on_trade_tick(tick(1, 11, 184_900));
    group.on_trade_tick(tick(2, 12, 184_800));
    group.on_trade_tick(tick(3, 13, 184_700));
    let outcome = group.on_trade_tick(tick(4, 14, 184_900));
    assert!(matches!(
        outcome,
        TickOutcome::Triggered(TriggeredScenario {
            scenario: ValidatedScenario { product: ProductKind::Inverse, .. },
            ..
        })
    ));
    assert_eq!(
        group.scenario(ProductKind::Leverage).unwrap().status,
        ScenarioStatus::CancelledByOco
    );

    assert_eq!(group.on_trade_tick(tick(5, 20, 185_100)), TickOutcome::Ignored);
    assert_eq!(group.winner().unwrap().scenario.product, ProductKind::Inverse);
}

#[test]
fn replacing_ends_every_scenario() {
    let mut group = group();
    group.on_trade_tick(tick(1, 11, 185_100));
    assert!(group.replace());
    assert!(group.scenarios().iter().all(|state| {
        state.status == ScenarioStatus::Replaced
            && state.confirming_since.is_none()
            && state.confirming_ticks == 0
    }));
    assert_eq!(group.on_trade_tick(tick(2, 12, 185_100)), TickOutcome::Ignored);
}

#[test]
fn a_trade_at_the_expiry_does_not_enter() {
    let mut group = group();
    group.on_trade_tick(tick(1, 300, 185_100));
    group.on_trade_tick(tick(2, 306, 185_100));
    group.on_trade_tick(tick(3, 307, 185_100));

    assert_eq!(group.on_trade_tick(tick(4, 310, 185_100)), TickOutcome::Expired);
    assert!(group
        .scenarios()
        .iter()
        .all(|state| state.status == ScenarioStatus::Expired));
    assert!(group.winner().is_none());
    assert!(!group.expire(311 * SECOND));
}

#[test]
fn the_time_shown_stops_at_three_seconds() {
    let mut group = group();
    group.on_trade_tick(tick(1, 11, 185_100));
    assert_eq!(
        group.confirming_elapsed(ProductKind::Leverage, 12_500_000_000),
        1_500_000_000
    );
    assert_eq!(
        group.confirming_elapsed(ProductKind::Leverage, 99 * SECOND),
        CONFIRMATION_DURATION
    );
}

#[test]
fn a_scenario_may_begin_as_missed_or_invalidated() {
    let seeds = [
        ScenarioSeed::missed(ProductKind::Leverage, Some(5)),
        ScenarioSeed::armed(ProductKind::Inverse, None),
    ];
    let mut group = OcoGroup::arm_seeded(
        1,
        1,
        &valid_two_way_decision(),
        &seeds,
        Some(40),
        10 * SECOND,
        310 * SECOND,
    )
    .unwrap();
    let missed = group.scenario(ProductKind::Leverage).unwrap();
    assert_eq!(missed.status, ScenarioStatus::Missed);
    assert_eq!(missed.reference_observed_at, Some(5));
    assert!(group.has_active_scenarios());
    // Trades up to the one that was last known count as old.
    assert_eq!(group.on_trade_tick(tick(40, 11, 184_900)), TickOutcome::Ignored);
    assert_eq!(group.on_trade_tick(tick(41, 11, 184_900)), TickOutcome::Updated);
    let seeds = [
        ScenarioSeed::missed(ProductKind::Leverage, None),
        ScenarioSeed::invalidated(ProductKind::Inverse, None),
    ];
    let over = OcoGroup::arm_seeded(
        1,
        1,
        &valid_two_way_decision(),
        &seeds,
        None,
        10 * SECOND,
        310 * SECOND,
    )
    .unwrap();
    assert!(!over.has_active_scenarios());
}
