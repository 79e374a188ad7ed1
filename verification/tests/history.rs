use easy_scalping::candle_cache::CandleCache;
use easy_scalping::market_history::{minute_bucket, normalize_bars, MarketHistory};
use easy_scalping::types::{Candle, Quote};

fn candle(time: i64, price: u64, volume: u64) -> Candle {
    Candle { time, open: price, high: price, low: price, close: price, volume }
}

fn quote(ts: i64, price: u64, volume: u64) -> Quote {
    Quote {
        code: "000660".into(),
        price,
        change_rate: 0,
        ask1: price + 100,
        bid1: price.saturating_sub(100),
        ask1_qty: 10,
        bid1_qty: 11,
        volume,
        trade_sequence: ts.max(0) as u64,
        received_at_micros: ts.max(0) as u64,
        trade_ts: ts,
        book_ts: ts,
    }
}

/// What a reader does: fetches only where nothing usable is kept.
fn get_or_fetch(
    history: &mut MarketHistory,
    calls: &mut usize,
    fetch: impl FnOnce(usize) -> Vec<Candle>,
) -> Vec<Candle> {
    if let Some(bars) = history.cached("000660") {
        return bars;
    }
    let generation = history.begin_fetch("000660");
    let fetched = fetch(*calls);
    *calls += 1;
    history.complete_fetch("000660", generation, fetched)
}

fn filled(bars: Vec<Candle>) -> MarketHistory {
    let mut history = MarketHistory::new();
    get_or_fetch(&mut history, &mut 0, |_| bars);
    history
}

#[test]
fn concurrent_initialization_is_single_flight() {
    let mut history = MarketHistory::new();
    let mut calls = 0;
    let a = get_or_fetch(&mut history, &mut calls, |_| vec![candle(120, 100, 1)]);
    let b = get_or_fetch(&mut history, &mut calls, |_| vec![candle(120, 200, 1)]);
    assert_eq!(a[0].close, 100);
    assert_eq!(b[0].close, 100);
    assert_eq!(calls, 1);
}

#[test]
fn healthy_reads_never_repeat_backfill() {
    let mut history = MarketHistory::new();
    let mut calls = 0;
    for _ in 0..3 {
        get_or_fetch(&mut history, &mut calls, |_| vec![candle(120, 100, 1)]);
    }
    assert_eq!(calls, 1);
}

#[test]
fn explicit_gap_causes_one_new_backfill() {
    let mut history = MarketHistory::new();
    let mut calls = 0;
    let fetch = |call: usize| vec![candle(120, 100 + call as u64, 1)];
    get_or_fetch(&mut history, &mut calls, fetch);
    history.mark_gap("000660");
    let restored = get_or_fetch(&mut history, &mut calls, fetch);
    get_or_fetch(&mut history, &mut calls, fetch);
    assert_eq!(restored[0].close, 101);
    assert_eq!(calls, 2);
}

#[test]
fn trade_ticks_update_current_and_next_minute_candles() {
    let mut history = filled(vec![Candle {
        time: 120,
        open: 100,
        high: 105,
        low: 95,
        close: 101,
        volume: 10,
    }]);

    assert!(history.apply_trade(&quote(125, 110, 3)));
    assert!(history.apply_trade(&quote(181, 107, 2)));
    assert!(!history.apply_trade(&quote(182, 108, 0)));

    let bars = history.cached("000660").unwrap();
    assert_eq!(bars.len(), 2);
    assert_eq!(bars[0].open, 100);
    assert_eq!(bars[0].high, 110);
    assert_eq!(bars[0].low, 95);
    assert_eq!(bars[0].close, 110);
    assert_eq!(bars[0].volume, 13);
    assert_eq!(bars[1].time, 180);
    assert_eq!(bars[1].close, 107);
    assert_eq!(bars[1].volume, 2);
}

#[test]
fn what_was_read_does_not_change_with_later_trades() {
    let mut history = filled(vec![candle(120, 100, 10)]);
    let captured = history.cached("000660").unwrap();

    assert!(history.apply_trade(&quote(125, 110, 3)));

    assert_eq!(captured[0].close, 100);
    assert_eq!(captured[0].volume, 10);
    let latest = history.cached("000660").unwrap();
    assert_eq!(latest[0].close, 110);
    assert_eq!(latest[0].volume, 13);
}

#[test]
fn duplicate_or_out_of_order_trade_sequence_does_not_double_volume() {
    let mut history = filled(vec![candle(120, 100, 10)]);

    let latest = quote(125, 110, 3);
    assert!(history.apply_trade(&latest));
    assert!(!history.apply_trade(&latest));
    assert!(!history.apply_trade(&quote(124, 109, 2)));

    let bars = history.cached("000660").unwrap();
    assert_eq!(bars[0].close, 110);
    assert_eq!(bars[0].volume, 13);
}

#[test]
fn reconnect_gap_resets_trade_sequence_space() {
    let mut history = filled(vec![candle(120, 100, 10)]);
    assert!(history.apply_trade(&quote(125, 110, 3)));

    history.mark_gap("000660");
    assert!(history.apply_trade(&quote(126, 111, 2)));
}

#[test]
fn next_trading_day_accepts_reset_cumulative_sequence() {
    let mut history = filled(vec![candle(86_400 + 120, 100, 10)]);

    let mut first_day = quote(86_400 + 125, 110, 3);
    first_day.trade_sequence = 100_000;
    assert!(history.apply_trade(&first_day));

    let mut next_day = quote(2 * 86_400 + 125, 111, 2);
    next_day.trade_sequence = 10;
    assert!(history.apply_trade(&next_day));
}

#[test]
fn trades_during_a_fetch_are_kept() {
    let mut history = MarketHistory::new();
    let generation = history.begin_fetch("000660");
    assert!(history.apply_trade(&quote(185, 130, 4)));
    let bars = history.complete_fetch("000660", generation, vec![candle(120, 100, 10)]);
    assert_eq!(bars.len(), 2);
    assert_eq!(bars[1].close, 130);
    history.mark_all_gapped();
    assert!(history.cached("000660").is_none());
}

#[test]
fn bars_are_kept_by_minute_and_no_more_than_fit() {
    assert_eq!(minute_bucket(125), 120);
    assert_eq!(minute_bucket(-1), -60);
    let many: Vec<Candle> = (1..=2_500).map(|i| candle(i * 60, 1, 1)).collect();
    assert_eq!(normalize_bars(&many).len(), 2_400);
    let mixed = vec![candle(185, 2, 1), candle(120, 1, 1), candle(0, 9, 9), candle(130, 3, 1)];
    let bars = normalize_bars(&mixed);
    assert_eq!(bars.len(), 2);
    assert_eq!((bars[0].time, bars[0].close, bars[0].volume), (120, 3, 2));
}

#[test]
fn concurrent_requests_fetch_once() {
    let mut cache = CandleCache::new();
    assert!(cache.fresh("0193T0", 0).is_none());
    cache.store("0193T0", vec![candle(0, 1, 1)], 0);
    assert_eq!(cache.fresh("0193T0", 30_000_000).unwrap().len(), 1);
    assert!(cache.fresh("0197X0", 0).is_none());
}

#[test]
fn expired_cache_refetches() {
    let mut cache = CandleCache::with_ttl(10);
    cache.store("X", vec![candle(0, 1, 1)], 100);
    assert!(cache.fresh("X", 109).is_some());
    assert!(cache.fresh("X", 120).is_none());
    cache.store("X", vec![candle(0, 2, 1)], 120);
    assert_eq!(cache.fresh("X", 121).unwrap()[0].close, 2);
}

#[test]
fn fetch_error_is_not_cached() {
    // A fetch that fails stores nothing.
    let mut cache = CandleCache::new();
    assert!(cache.fresh("Y", 0).is_none());
    cache.store("Y", vec![candle(0, 1, 1)], 0);
    assert!(cache.fresh("Y", 0).is_some());
}
