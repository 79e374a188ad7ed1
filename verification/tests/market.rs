use easy_scalping::mock::{
    base_price, check_resting_fills, session_minutes, Holding, MockMarket, RestingSell, SymState,
    INITIAL_CASH,
};
use easy_scalping::settings::Settings;
use easy_scalping::types::Side;
use easy_scalping::util::{buy_limit_price, max_buy_qty};

fn market_with_holding(code: &str, price: u64, qty: u64, avg: u64) -> MockMarket {
    MockMarket {
        syms: vec![SymState { code: code.into(), price, day_open: price, etf: true }],
        cash: 0,
        positions: vec![Holding { code: code.into(), qty, avg }],
        resting_sells: Vec::new(),
    }
}

#[test]
fn resting_sell_fills_only_when_price_reaches_target() {
    let mut m = market_with_holding("0193T0", 10_000, 100, 98_000_000);
    m.resting_sells.push(RestingSell {
        code: "0193T0".into(),
        qty: 100,
        limit_price: 10_050,
        order_no: "R".into(),
    });
    assert!(check_resting_fills(&mut m, 1).is_empty());
    assert_eq!(m.resting_sells.len(), 1);

    m.syms[0].price = 10_050;
    let fills = check_resting_fills(&mut m, 2);
    assert_eq!(fills.len(), 1);
    assert_eq!(fills[0].qty, 100);
    assert_eq!(fills[0].price, 100_500_000);
    assert_eq!(fills[0].side, Side::Sell);
    assert_eq!(fills[0].filled_at, 2);
    assert!(m.resting_sells.is_empty());
    assert!(m.positions.iter().all(|p| p.code != "0193T0"));
    assert_eq!(m.cash, 10_050 * 100);
}

#[test]
fn place_and_cancel_reserved_sell() {
    let mut m = market_with_holding("0193T0", 12_800, 0, 0);
    m.positions.clear();
    assert!(m.place_sell_limit("0193T0", 10, 13_000).is_err());

    m.positions.push(Holding { code: "0193T0".into(), qty: 10, avg: 128_000_000 });
    let ack = m.place_sell_limit("0193T0", 10, 13_000).unwrap();
    assert!(ack.order_no.contains("RESV"));
    assert_eq!(ack.org_no, "DEMO-ORG");
    assert_eq!(m.resting_sells.len(), 1);

    m.cancel_order("0193T0").unwrap();
    assert!(m.resting_sells.is_empty());
    assert!(m.cancel_order("0193T0").is_err());
}

#[test]
fn a_sale_of_more_than_is_held_fills_what_is_held() {
    let mut m = market_with_holding("0193T0", 10_000, 30, 98_000_000);
    m.resting_sells.push(RestingSell {
        code: "0193T0".into(),
        qty: 100,
        limit_price: 9_000,
        order_no: "R".into(),
    });
    let fills = check_resting_fills(&mut m, 1);
    assert_eq!(fills[0].qty, 30);
    assert_eq!(m.cash, 270_000);
    assert!(m.positions.is_empty());
}

#[test]
fn prices_begin_with_the_code() {
    assert_eq!(base_price("000660"), 194_500);
    assert_eq!(base_price("0193T0"), 12_800);
    // 97 + 98 + 99 = 294, 14 after forties.
    assert_eq!(base_price("abc"), 12_000);
    // 0xea + 0xb0 + 0x80 = 538, 18 after forties.
    assert_eq!(base_price("가"), 14_000);
}

#[test]
fn demo_buy_then_sell_roundtrip() {
    let settings = Settings::default();
    let mut market = MockMarket::new(&settings);
    let code = "0193T0";
    let quote = market.snapshot(code, 1, 1).unwrap();
    assert!(quote.ask1 > 0);

    let account0 = market.account();
    let limit = buy_limit_price(quote.ask1, true);
    let qty = max_buy_qty(account0.cash, limit);
    assert!(qty > 0);

    let (_, fill) = market.place_buy(code, qty, limit, 2).unwrap();
    let fill = fill.unwrap();
    assert_eq!(fill.code, code);
    assert!(matches!(fill.side, Side::Buy));
    assert_eq!(fill.qty, qty);

    let account1 = market.account();
    assert!(account1.cash < account0.cash);
    let pos = account1.positions.iter().find(|p| p.code == code).unwrap();
    assert_eq!(pos.qty, qty);

    let (_, fill) = market.place_sell_market(code, qty, 3).unwrap();
    assert!(matches!(fill.side, Side::Sell));
    assert_eq!(fill.qty, qty);

    let account2 = market.account();
    assert!(account2.positions.iter().all(|p| p.code != code));
    assert!(account2.cash > account1.cash);
}

#[test]
fn demo_ioc_below_ask_does_not_fill() {
    let settings = Settings::default();
    let mut market = MockMarket::new(&settings);
    let code = "0193T0";
    let quote = market.snapshot(code, 1, 1).unwrap();

    let (ack, fill) = market.place_buy(code, 10, quote.bid1, 2).unwrap();
    assert!(ack.message.contains("미체결"));
    assert!(fill.is_none());

    let account = market.account();
    assert_eq!(account.cash, 10_000_000);
    assert_eq!(account.cash, INITIAL_CASH);
    assert!(account.positions.is_empty());
}

#[test]
fn a_purchase_averages_what_is_held() {
    let mut m = market_with_holding("0193T0", 10_000, 10, 98_000_000);
    m.cash = 200_000;
    let (ack, fill) = m.place_buy("0193T0", 10, 10_005, 7).unwrap();
    assert_eq!(ack.order_no, "DEMO-BUY");
    assert_eq!(fill.unwrap().price, 100_050_000);
    assert_eq!(m.cash, 99_950);
    // (9 800 + 10 005) / 2
    assert_eq!(m.positions[0].avg, 99_025_000);
    let account = m.account();
    assert_eq!(account.positions[0].eval_pnl, 19_500_000);
    assert_eq!(account.positions[0].pnl_rate, 984_599_848);
}

#[test]
fn orders_that_the_market_refuses() {
    let mut m = market_with_holding("0193T0", 10_000, 10, 98_000_000);
    let told = m.place_buy("XXXXXX", 1, 1, 0).unwrap_err().text();
    assert!(told.contains("데모에 없는 종목: XXXXXX"));
    let told = m.place_buy("0193T0", 1, 10_005, 0).unwrap_err().text();
    assert!(told.contains("주문가능금액 부족 (데모)"));
    let told = m.place_sell_market("0193T0", 11, 0).unwrap_err().text();
    assert!(told.contains("보유 수량 부족 (데모)"));
    let told = m.place_sell_market("XXXXXX", 11, 0).unwrap_err().text();
    assert!(told.contains("데모에 없는 종목: XXXXXX"));
    let told = m.cancel_order("0193T0").unwrap_err().text();
    assert!(told.contains("취소할 예약이 없습니다 (데모)"));
    let told = m.snapshot("XXXXXX", 0, 0).unwrap_err().text();
    assert!(told.contains("데모에 없는 종목: XXXXXX"));
    assert_eq!(m.max_buy_qty(0), 0);
    m.cash = 99;
    assert_eq!(m.max_buy_qty(10), 9);
}

#[test]
fn a_price_walks_in_steps_and_is_pulled_back() {
    let mut m = market_with_holding("0193T0", 10_000, 10, 98_000_000);
    m.walk("0193T0", 2);
    assert_eq!(m.syms[0].price, 10_010);
    // Five percent above the beginning of the day, the pull is a whole step.
    m.syms[0].price = 10_500;
    m.walk("0193T0", 0);
    assert_eq!(m.syms[0].price, 10_495);
    // One percent above it is half a step, and a half rounds up.
    m.syms[0].price = 10_100;
    m.walk("0193T0", 0);
    assert_eq!(m.syms[0].price, 10_100);
    m.syms[0].price = 5;
    m.walk("0193T0", -2);
    assert_eq!(m.syms[0].price, 5);
    let quote = m.quote("0193T0", 3, 4, 5).unwrap();
    assert_eq!((quote.ask1, quote.bid1, quote.volume), (10, 5, 3));
    assert_eq!(quote.change_rate, -99_950_000_000);
}

#[test]
fn a_purchase_of_no_shares_changes_no_cash() {
    let mut m = market_with_holding("0193T0", 10_000, 0, 0);
    m.positions.clear();
    m.cash = 100;
    let (ack, fill) = m.place_buy("0193T0", 0, 10_005, 7).unwrap();
    assert_eq!(ack.order_no, "DEMO-BUY");
    assert_eq!(fill.unwrap().qty, 0);
    assert_eq!(m.cash, 100);
    assert!(m.account().positions.is_empty());
}

#[test]
fn a_price_walks_however_high_it_is() {
    let high = u64::MAX / 5 * 5 - 1_000;
    let mut m = market_with_holding("0193T0", high, 0, 0);
    m.walk("0193T0", 2);
    assert_eq!(m.syms[0].price, high + 10);
    m.walk("0193T0", -2);
    assert_eq!(m.syms[0].price, high);
}

#[test]
fn sessions_are_of_working_days() {
    // Monday, 20 July 2026.
    let monday = 1784505600;
    let day = 86_400;
    let (open, last) = (9 * 3_600, 15 * 3_600 + 29 * 60);

    let early = session_minutes(monday + open - 1, 2);
    assert_eq!(early.len(), 780);
    assert_eq!(early[0], monday - 4 * day + open);
    assert_eq!(early[779], monday - 3 * day + last);

    let begun = session_minutes(monday + open + 119, 2);
    assert_eq!(begun.len(), 392);
    assert_eq!(begun[0], monday - 3 * day + open);
    assert_eq!(&begun[389..], &[monday - 3 * day + last, monday + open, monday + open + 60]);

    assert_eq!(session_minutes(monday + 23 * 3_600, 1).len(), 390);
    assert_eq!(session_minutes(monday - day, 1)[0], monday - 3 * day + open);
    assert!(session_minutes(monday, 0).is_empty());
}
