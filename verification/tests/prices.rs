use easy_scalping::clock::{
    date_text, is_date, kst_str_to_fake_epoch, now_kst_fake_epoch, parse_clock, split_day,
    MAX_TIMESTAMP, MIN_TIMESTAMP,
};
use easy_scalping::util::{buy_limit_price, max_buy_qty, sell_target_price, tick_size};

#[test]
fn tick_size_etf_is_always_5() {
    assert_eq!(tick_size(1_000, true), 5);
    assert_eq!(tick_size(123_456, true), 5);
}

#[test]
fn tick_size_stock_bands() {
    assert_eq!(tick_size(1_999, false), 1);
    assert_eq!(tick_size(2_000, false), 5);
    assert_eq!(tick_size(19_999, false), 10);
    assert_eq!(tick_size(50_000, false), 100);
    assert_eq!(tick_size(200_000, false), 500);
    assert_eq!(tick_size(700_000, false), 1_000);
}

#[test]
fn buy_limit_adds_premium() {
    assert_eq!(buy_limit_price(12_000, true), 12_360);
    assert_eq!(buy_limit_price(10_001, true), 10_300);
}

#[test]
fn buy_limit_aligns_to_tick() {
    assert_eq!(buy_limit_price(21_000, false), 21_600);
}

#[test]
fn max_qty_uses_95_percent() {
    assert_eq!(max_buy_qty(1_000_000, 12_010), 79);
    assert_eq!(max_buy_qty(63_956_290, 14_710), 4_130);
    assert_eq!(max_buy_qty(0, 12_010), 0);
    assert_eq!(max_buy_qty(1_000_000, 0), 0);
}

#[test]
fn sell_target_ceils_to_first_tick_at_or_above() {
    // Averages in ten-thousandths of a won, returns in billionths of a percent.
    assert_eq!(sell_target_price(100_000_000, 300_000_000, true), 10_030);
    assert_eq!(sell_target_price(100_010_000, 300_000_000, true), 10_035);
    assert_eq!(sell_target_price(120_000_000, 500_000_000, true), 12_060);
    assert_eq!(sell_target_price(100_000_000, 0, true), 10_000);
    assert_eq!(sell_target_price(200_000_000, 200_000_000, false), 20_050);
    assert_eq!(sell_target_price(0, 300_000_000, true), 0);
    // A loss of everything has no target.
    assert_eq!(sell_target_price(100_000_000, -100_000_000_000, true), 0);
}

#[test]
fn kst_str_parses() {
    let e = kst_str_to_fake_epoch("20260716", "093000").unwrap();
    let dt = chrono::DateTime::from_timestamp(e, 0).unwrap().naive_utc();
    assert_eq!(dt.format("%Y%m%d %H%M%S").to_string(), "20260716 093000");
}

#[test]
fn unreadable_dates_and_times_are_none() {
    assert_eq!(kst_str_to_fake_epoch("20260231", "093000"), None);
    assert_eq!(kst_str_to_fake_epoch("20260716", "250000"), None);
    assert_eq!(kst_str_to_fake_epoch("", ""), None);
    assert!(is_date("20260716"));
    assert!(!is_date("20261316"));
    assert_eq!(parse_clock("093015"), Some((34_215, 0)));
    assert_eq!(parse_clock("100060"), Some((36_059, 1_000_000_000)));
    assert_eq!(parse_clock("996015"), None);
}

#[test]
fn day_and_second_of_a_time() {
    let at = kst_str_to_fake_epoch("20260716", "093000").unwrap();
    let midnight = kst_str_to_fake_epoch("20260716", "000000").unwrap();
    assert_eq!(split_day(at), Some((midnight, 34_200)));
    assert_eq!(split_day(-1), Some((-86_400, 86_399)));
    assert_eq!(date_text(at).as_deref(), Some("20260716"));
    assert_eq!(date_text(-1).as_deref(), Some("19691231"));
}

#[test]
fn the_calendar_has_two_ends() {
    assert!(split_day(MIN_TIMESTAMP).is_some());
    assert!(split_day(MIN_TIMESTAMP - 1).is_none());
    assert!(split_day(MAX_TIMESTAMP).is_some());
    assert!(split_day(MAX_TIMESTAMP + 1).is_none());
    assert!(date_text(MAX_TIMESTAMP + 1).is_none());
}

#[test]
fn korean_time_is_nine_hours_ahead() {
    let ahead = now_kst_fake_epoch() - chrono::Utc::now().timestamp();
    assert!((32_399..=32_401).contains(&ahead));
}
