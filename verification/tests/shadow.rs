use easy_scalping::automation::shadow::{
    checked_value, prepare_entry, simple_return_pct, target_price_for, EntryOutcome, ExitReason,
    ShadowBook, ShadowEntryRequest, ShadowError, ShadowExecutionError, ShadowOrderKind,
    ShadowOrderStatus, ShadowProduct, ShadowSession, ShadowTradeTick, MAX_HOLD_SECONDS,
};

const DAY: i64 = 20_000 * 24 * 60 * 60;

/// Targets in tenths of a percent.
const TENTH: i64 = 100_000_000;

fn at(hour: i64, minute: i64, second: i64) -> i64 {
    DAY + hour * 60 * 60 + minute * 60 + second
}

fn book(
    sequence: u64,
    ask_price: u64,
    ask_qty: u64,
    bid_price: u64,
    bid_qty: u64,
    observed_at: i64,
) -> ShadowBook {
    ShadowBook {
        product: ShadowProduct::Leverage,
        sequence,
        ask_price,
        ask_qty,
        bid_price,
        bid_qty,
        observed_at,
    }
}

fn trade(sequence: u64, price: u64, volume: u64, at: i64) -> ShadowTradeTick {
    ShadowTradeTick { product: ShadowProduct::Leverage, sequence, price, volume, at }
}

fn enter(
    session: &mut ShadowSession,
    now: i64,
    ask_price: u64,
    ask_qty: u64,
    bid_price: u64,
    bid_qty: u64,
    target: i64,
) -> EntryOutcome {
    session
        .try_enter(
            ShadowProduct::Leverage,
            "0193T0".into(),
            target * TENTH,
            now,
            book(1, ask_price, ask_qty, bid_price, bid_qty, now),
        )
        .unwrap()
}

fn request(now: i64) -> ShadowEntryRequest {
    ShadowEntryRequest {
        existing_session: None,
        copy_real_cash: true,
        fallback_cash: 0,
        product: ShadowProduct::Leverage,
        code: "0193T0".into(),
        target_return_pct: 3 * TENTH,
        now,
        book: book(1, 10_000, 10, 9_995, 10, now),
    }
}

#[test]
fn an_entry_copies_the_cash_and_simulates() {
    let now = at(10, 0, 0);
    let prepared = prepare_entry(request(now), Ok(1_000_000)).unwrap();
    assert_eq!(prepared.copied_cash, Some(1_000_000));
    assert_eq!(prepared.outcome.filled_qty, 10);
    assert_eq!(prepared.session.position().unwrap().qty, 10);

    let failed = prepare_entry(request(now), Err("x".into()));
    assert_eq!(failed.unwrap_err(), ShadowExecutionError::Cash("x".into()));
    let mut own = request(now);
    own.copy_real_cash = false;
    own.fallback_cash = 1;
    assert_eq!(
        prepare_entry(own, Ok(0)).unwrap_err(),
        ShadowExecutionError::Simulation(ShadowError::NoAffordableQuantity)
    );
}

#[test]
fn cash_is_copied_and_no_more_than_the_ask_is_bought() {
    let now = at(10, 0, 0);
    let mut session = ShadowSession::start(1_000_000);
    let outcome = enter(&mut session, now, 10_000, 30, 9_995, 50, 3);

    assert_eq!(session.starting_cash(), 1_000_000);
    assert_eq!(outcome.requested_qty, 95);
    assert_eq!(outcome.filled_qty, 30);
    assert_eq!(session.cash(), 700_000);
    assert_eq!(session.first_fill_time(), Some(now));
    let position = session.position().unwrap();
    assert_eq!(position.qty, 30);
    assert_eq!(position.entry_vwap, 10_000);
    assert_eq!(position.target_price, 10_030);
    assert_eq!(session.orders().len(), 2);
    assert_eq!(
        session.orders()[0].status,
        ShadowOrderStatus::PartiallyFilledCancelled
    );
    assert_eq!(session.orders()[1].kind, ShadowOrderKind::Target);
}

#[test]
fn a_target_fills_by_the_volume_of_real_trades() {
    let now = at(10, 0, 0);
    let mut session = ShadowSession::start(1_000_000);
    let entry = enter(&mut session, now, 10_005, 10, 10_000, 20, 3);
    assert_eq!(entry.target_price, Some(10_040));

    let first = session.on_trade_tick(trade(1, 10_040, 3, now + 1)).unwrap();
    assert_eq!(first.fill.unwrap().qty, 3);
    assert_eq!(session.position().unwrap().qty, 7);
    assert!(session.simple_return_pct().unwrap() > 3 * TENTH as i128);

    let duplicate = session.on_trade_tick(trade(1, 10_050, 100, now + 2)).unwrap();
    assert!(!duplicate.accepted);
    assert_eq!(session.position().unwrap().qty, 7);

    let final_fill = session.on_trade_tick(trade(2, 10_045, 100, now + 3)).unwrap();
    assert!(final_fill.position_closed);
    assert_eq!(final_fill.exit_reason, Some(ExitReason::TargetReached));
    assert!(session.position().is_none());
    assert_eq!(session.orders()[1].status, ShadowOrderStatus::Filled);
}

#[test]
fn a_forced_exit_fills_by_the_bid_and_goes_on_with_the_next() {
    let now = at(10, 0, 0);
    let mut session = ShadowSession::start(1_000_000);
    enter(&mut session, now, 10_000, 10, 9_995, 2, 3);

    let first = session.request_mode_exit(now + 1).unwrap();
    assert_eq!(first.exit_reason, Some(ExitReason::ModeExit));
    assert_eq!(first.fill.unwrap().qty, 2);
    assert_eq!(session.position().unwrap().qty, 8);
    assert_eq!(session.orders()[1].status, ShadowOrderStatus::Cancelled);

    assert!(session.poll(now + 2).unwrap().fill.is_none());
    assert_eq!(session.position().unwrap().qty, 8);

    let second = session.on_book(book(2, 10_000, 10, 9_990, 3, now + 3)).unwrap();
    assert_eq!(second.fill.unwrap().qty, 3);
    assert_eq!(session.position().unwrap().qty, 5);

    let last = session.on_book(book(3, 10_000, 10, 9_985, 20, now + 4)).unwrap();
    assert!(last.position_closed);
    assert!(session.position().is_none());
    let forced = session.orders().last().unwrap();
    assert_eq!(forced.kind, ShadowOrderKind::ForcedExit(ExitReason::ModeExit));
    assert_eq!(forced.status, ShadowOrderStatus::Filled);
}

#[test]
fn the_stop_and_the_close_come_before_the_holding_time() {
    let now = at(15, 4, 58);
    let mut session = ShadowSession::start(1_000_000);
    enter(&mut session, now, 10_000, 10, 9_995, 10, 3);

    let max_hold =
        session.on_trade_tick(trade(1, 10_030, 10, now + MAX_HOLD_SECONDS)).unwrap();
    assert_eq!(max_hold.exit_reason, Some(ExitReason::MaxHolding));
    assert!(max_hold.fill.is_none());
    assert_eq!(session.position().unwrap().qty, 10);

    let close = session
        .on_book(book(2, 10_030, 10, 10_020, 10, at(15, 15, 0)))
        .unwrap();
    assert_eq!(close.exit_reason, Some(ExitReason::MarketClose));
    assert!(close.position_closed);
    assert_eq!(
        session.orders().last().unwrap().kind,
        ShadowOrderKind::ForcedExit(ExitReason::MarketClose)
    );

    let morning = at(10, 0, 0);
    let mut stop_session = ShadowSession::start(1_000_000);
    enter(&mut stop_session, morning, 10_000, 10, 9_995, 10, 3);
    let stopped = stop_session
        .on_trade_tick(trade(1, 9_970, 10, morning + MAX_HOLD_SECONDS))
        .unwrap();
    assert_eq!(stopped.exit_reason, Some(ExitReason::StopLoss));
}

#[test]
fn a_profit_above_the_guard_is_kept_when_it_falls_back() {
    let now = at(10, 0, 0);
    let mut session = ShadowSession::start(1_000_000);
    enter(&mut session, now, 10_000, 10, 9_995, 10, 4);

    let armed = session.on_trade_tick(trade(1, 10_035, 10, now + 1)).unwrap();
    assert!(armed.fill.is_none());
    assert!(session.position().unwrap().profit_guard_armed);

    session.on_book(book(2, 10_035, 10, 10_030, 10, now + 1)).unwrap();
    let protected = session.on_trade_tick(trade(2, 10_030, 10, now + 2)).unwrap();
    assert_eq!(protected.exit_reason, Some(ExitReason::ProfitGuard));
    assert!(protected.position_closed);
    assert_eq!(
        session.orders().last().unwrap().kind,
        ShadowOrderKind::ForcedExit(ExitReason::ProfitGuard)
    );

    let mut point_three = ShadowSession::start(1_000_000);
    enter(&mut point_three, now, 10_000, 10, 9_995, 10, 3);
    point_three.on_trade_tick(trade(1, 10_025, 10, now + 1)).unwrap();
    assert!(!point_three.position().unwrap().profit_guard_armed);
}

#[test]
fn the_close_of_the_day_before_comes_first_after_a_restart() {
    let now = at(14, 59, 0);
    let mut session = ShadowSession::start(1_000_000);
    enter(&mut session, now, 10_000, 10, 9_995, 10, 3);

    let next_day = now + 24 * 60 * 60;
    let update = session.on_book(book(2, 10_000, 10, 9_990, 10, next_day)).unwrap();

    assert_eq!(update.exit_reason, Some(ExitReason::MarketClose));
    assert!(update.position_closed);
}

#[test]
fn a_session_half_sold_goes_on_after_it_was_written_down() {
    let now = at(10, 0, 0);
    let mut session = ShadowSession::start(1_000_000);
    enter(&mut session, now, 10_000, 10, 9_995, 2, 3);
    let first = session.request_mode_exit(now + 1).unwrap();
    assert_eq!(first.fill.unwrap().qty, 2);
    assert_eq!(session.exit_summary(), (2, 19_990));

    let mut restored = ShadowSession::from_parts(session.parts()).unwrap();
    restored.prepare_for_restart();

    assert_eq!(restored.cash(), 919_990);
    assert_eq!(restored.position().unwrap().qty, 8);
    assert_eq!(restored.exit_summary(), (2, 19_990));
    assert_eq!(restored.pending_exit_reason(), Some(ExitReason::ModeExit));
    assert_eq!(restored.orders(), session.orders());
    assert!(restored.poll(now + 2).unwrap().fill.is_none());

    let completed = restored.on_book(book(1, 10_000, 10, 9_990, 20, now + 2)).unwrap();
    assert!(completed.position_closed);
    assert_eq!(restored.exit_summary(), (10, 99_910));
    assert_eq!(restored.cash(), 999_910);
}

#[test]
fn what_is_no_session_is_not_taken_up() {
    let now = at(10, 0, 0);
    let mut session = ShadowSession::start(1_000_000);
    enter(&mut session, now, 10_000, 10, 9_995, 2, 3);
    let mut parts = session.parts();
    parts.target_order_id = Some(1);
    assert!(ShadowSession::from_parts(parts).is_none());
    let mut parts = session.parts();
    parts.orders[0].id = 7;
    assert!(ShadowSession::from_parts(parts).is_none());
    let mut parts = session.parts();
    parts.position = None;
    assert!(ShadowSession::from_parts(parts).is_none());
}

#[test]
fn a_stored_position_is_taken_up() {
    let now = at(10, 0, 0);
    let mut session = ShadowSession::start(1_000_000);
    enter(&mut session, now, 10_000, 10, 9_995, 2, 3);
    let position = session.position().unwrap().clone();
    let mut restored = ShadowSession::restore(1_000_000, 900_000, position);
    assert_eq!(restored.orders().len(), 1);
    let sold = restored.on_trade_tick(trade(1, 10_030, 100, now + 1)).unwrap();
    assert!(sold.position_closed);
    assert_eq!(restored.cash(), 1_000_300);
}

#[test]
fn every_reason_against_an_entry() {
    let now = at(10, 0, 0);
    let enter_with = |target: i64, book: ShadowBook, cash: u64| {
        ShadowSession::start(cash).try_enter(
            ShadowProduct::Leverage,
            "0193T0".into(),
            target,
            now,
            book,
        )
    };
    let good = book(1, 10_000, 10, 9_995, 10, now);
    let mut other = good;
    other.product = ShadowProduct::Inverse;
    assert_eq!(enter_with(3 * TENTH, other, 1_000_000), Err(ShadowError::ProductMismatch));
    let mut empty = good;
    empty.ask_price = 0;
    assert_eq!(enter_with(3 * TENTH, empty, 1_000_000), Err(ShadowError::InvalidBook));
    let mut stale = good;
    stale.observed_at = now - 60;
    assert_eq!(enter_with(3 * TENTH, stale, 1_000_000), Err(ShadowError::StaleBook));
    assert_eq!(enter_with(TENTH, good, 1_000_000), Err(ShadowError::InvalidTargetReturn));
    assert_eq!(enter_with(3 * TENTH, good, 100), Err(ShadowError::NoAffordableQuantity));
    let mut session = ShadowSession::start(1_000_000);
    enter(&mut session, now, 10_000, 10, 9_995, 2, 3);
    let again = session.try_enter(ShadowProduct::Leverage, "0193T0".into(), 3 * TENTH, now, good);
    assert_eq!(again, Err(ShadowError::PositionAlreadyOpen));
    assert_eq!(checked_value(u64::MAX, 2), Err(ShadowError::ArithmeticOverflow));
    assert_eq!(target_price_for(10_005, 3 * TENTH), Ok(10_040));
    assert_eq!(target_price_for(0, 3 * TENTH), Err(ShadowError::InvalidBook));
}

#[test]
fn returns_are_measured_on_the_entry() {
    assert_eq!(simple_return_pct(10_000, 10_030), Some(300_000_000));
    assert_eq!(simple_return_pct(10_000, 9_970), Some(-300_000_000));
    assert_eq!(simple_return_pct(0, 10), None);
    assert!(ExitReason::MarketClose.priority() > ExitReason::StopLoss.priority());
    assert!(!ExitReason::TargetReached.is_forced());
}

#[test]
fn what_a_trade_sells_is_what_it_reports() {
    let now = at(10, 0, 0);
    let mut session = ShadowSession::start(1_000_000);
    enter(&mut session, now, 10_005, 10, 10_000, 20, 3);
    let mut cash = session.cash();
    let mut held = session.position().unwrap().qty;
    for (sequence, price, volume) in [(1, 10_000, 5), (2, 10_040, 3), (3, 10_045, 100)] {
        let update = session.on_trade_tick(trade(sequence, price, volume, now + 1)).unwrap();
        if let Some(fill) = &update.fill {
            cash += fill.qty * fill.price;
            held -= fill.qty;
        }
        assert_eq!(session.cash(), cash);
        assert_eq!(session.position().map_or(0, |p| p.qty), held);
        assert_eq!(update.position_closed, held == 0);
    }
    assert_eq!(held, 0);
}
