use easy_scalping::automation::schedule::{
    flatten_at, following_slot, has_reached_position_flatten, is_at_or_after_flatten,
    next_decision_slot, recover_decision_slot, recover_persisted_decision_slot, scenario_expiry,
};
use easy_scalping::clock::MAX_TIMESTAMP;

fn epoch(value: &str) -> i64 {
    chrono::NaiveDateTime::parse_from_str(value, "%Y-%m-%d %H:%M:%S")
        .unwrap()
        .and_utc()
        .timestamp()
}

#[test]
fn regular_slots_and_last_expiry() {
    assert_eq!(
        next_decision_slot(epoch("2026-07-22 09:04:59")),
        Some(epoch("2026-07-22 09:05:00"))
    );
    assert_eq!(
        next_decision_slot(epoch("2026-07-22 10:20:00")),
        Some(epoch("2026-07-22 10:20:00"))
    );
    assert_eq!(
        next_decision_slot(epoch("2026-07-22 10:20:01")),
        Some(epoch("2026-07-22 10:25:00"))
    );
    assert_eq!(
        scenario_expiry(epoch("2026-07-22 15:05:00")),
        Some(epoch("2026-07-22 15:10:00"))
    );
    assert_eq!(following_slot(epoch("2026-07-22 15:05:00")), None);
    assert_eq!(
        following_slot(epoch("2026-07-22 10:20:00")),
        Some(epoch("2026-07-22 10:25:00"))
    );
    assert_eq!(
        scenario_expiry(epoch("2026-07-22 10:20:00")),
        Some(epoch("2026-07-22 10:25:00"))
    );
}

#[test]
fn after_market_has_no_decision_slot() {
    assert_eq!(next_decision_slot(epoch("2026-07-22 15:05:01")), None);
    assert!(is_at_or_after_flatten(epoch("2026-07-22 15:15:00")));
    assert!(!is_at_or_after_flatten(epoch("2026-07-22 15:14:59")));
    assert_eq!(
        flatten_at(epoch("2026-07-22 10:00:00")),
        Some(epoch("2026-07-22 15:15:00"))
    );
    assert_eq!(flatten_at(MAX_TIMESTAMP + 1), None);
}

#[test]
fn the_close_of_the_first_fill_is_past_on_the_next_morning() {
    let first_fill = epoch("2026-07-22 14:59:00");
    assert!(!has_reached_position_flatten(first_fill, epoch("2026-07-22 15:14:59")));
    assert!(has_reached_position_flatten(first_fill, epoch("2026-07-22 15:15:00")));
    assert!(has_reached_position_flatten(first_fill, epoch("2026-07-23 09:00:00")));
}

#[test]
fn the_schedule_recovers_on_the_next_day() {
    assert_eq!(
        recover_decision_slot(None, epoch("2026-07-23 08:30:00")),
        Some(epoch("2026-07-23 09:05:00"))
    );
    assert_eq!(
        recover_decision_slot(
            Some(epoch("2026-07-22 10:20:00")),
            epoch("2026-07-23 10:21:00")
        ),
        Some(epoch("2026-07-23 10:25:00"))
    );
    assert_eq!(
        recover_decision_slot(
            Some(epoch("2026-07-23 10:20:00")),
            epoch("2026-07-23 10:22:00")
        ),
        Some(epoch("2026-07-23 10:20:00"))
    );
}

#[test]
fn a_restart_on_the_boundary_does_not_repeat_a_slot() {
    let ten_twenty = epoch("2026-07-23 10:20:00");
    assert_eq!(
        recover_persisted_decision_slot(None, Some(ten_twenty), ten_twenty),
        Some(epoch("2026-07-23 10:25:00"))
    );

    let last = epoch("2026-07-23 15:05:00");
    assert_eq!(recover_persisted_decision_slot(None, Some(last), last), None);
}
