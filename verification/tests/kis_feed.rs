use aes::cipher::block_padding::Pkcs7;
use aes::cipher::{BlockEncryptMut, KeyIvInit};
use base64::Engine;
use easy_scalping::broker::BrokerOrderStatus;
use easy_scalping::clock::kst_str_to_fake_epoch;
use easy_scalping::error::AppError;
use easy_scalping::json::{read_json, Json};
use easy_scalping::kis::crypto::{settle_plain, CipherFault};
use easy_scalping::kis::inquiry::{
    fill_timestamp, open_order_at, open_orders, order_status, order_status_at,
    parse_exact_order_status, today_fills,
};
use easy_scalping::kis::quote::{
    bar_at, candles_1m, minus_one_minute, minute_earlier, needs_price, read_book, read_minutes, read_price, row_to_candle,
    session_bounds, snapshot, snapshot_params, write_hms, CandleScan,
};
use easy_scalping::kis::rest::RestPage;
use easy_scalping::kis::ws::{
    book_at, is_pingpong, is_sign_of_life, notice_at, parse_data_frame, parse_notice, pending_subscriptions, required_subscriptions,
    subscribe_ack, subscribe_delay, subscribe_msg, tick_at, ws_err, Backoff, FeedSession,
    FrameClock, NoticeStamp, SocketAction, WsConfig, SUBSCRIBE_INTERVAL,
};
use easy_scalping::types::{FeedEvent, Side};

fn json(text: &str) -> Json {
    read_json(text).unwrap()
}

fn clock() -> FrameClock {
    FrameClock { today: "20260722".into(), micros: 77, stamp: stamp(1) }
}

fn stamp(sequence: u64) -> NoticeStamp {
    NoticeStamp { received_nanos: 1_000, receive_sequence: sequence }
}

#[test]
fn parse_tick_frame() {
    let mut fields = vec!["0"; 46];
    fields[0] = "0193T0";
    fields[1] = "093015";
    fields[2] = "12800";
    fields[5] = "1.19";
    fields[10] = "12805";
    fields[11] = "12795";
    fields[12] = "150";
    fields[13] = "123456";
    let payload = fields.join("^");
    let txt = format!("0|H0STCNT0|001|{payload}");

    let evs = parse_data_frame(&txt, &None, &clock());
    assert_eq!(evs.len(), 1);
    match &evs[0] {
        FeedEvent::Quote(q) => {
            assert_eq!(q.code, "0193T0");
            assert_eq!(q.price, 12_800);
            assert_eq!(q.ask1, 12_805);
            assert_eq!(q.bid1, 12_795);
            assert_eq!(q.volume, 150);
            assert_eq!(q.trade_sequence, 123_456);
            assert!(q.received_at_micros > 0);
            assert_eq!(q.change_rate, 1_190_000_000);
            assert_eq!(q.trade_ts, kst_str_to_fake_epoch("20260722", "093015").unwrap());
            assert_eq!(q.book_ts, 0);
        }
        other => panic!("unexpected event: {other:?}"),
    }
}

#[test]
fn parse_unified_tick_frame() {
    let mut fields = vec!["0"; 46];
    fields[0] = "000660";
    fields[1] = "154502";
    fields[2] = "194500";
    fields[12] = "77";
    let txt = format!("0|H0UNCNT0|001|{}", fields.join("^"));
    let evs = parse_data_frame(&txt, &None, &clock());
    assert_eq!(evs.len(), 1);
    assert!(matches!(&evs[0], FeedEvent::Quote(q) if q.code == "000660" && q.volume == 77));
}

#[test]
fn parse_multi_record_tick_frame() {
    let mut rec: Vec<String> = vec!["0".into(); 46];
    rec[0] = "005930".into();
    rec[1] = "100001".into();
    rec[2] = "86400".into();
    rec[12] = "10".into();
    let one = rec.join("^");
    let txt = format!("0|H0STCNT0|002|{one}^{one}");
    let evs = parse_data_frame(&txt, &None, &clock());
    assert_eq!(evs.len(), 2);
}

#[test]
fn parse_book_frame() {
    let mut fields = vec!["0"; 59];
    fields[0] = "0193T0";
    fields[1] = "093015";
    fields[3] = "12810";
    fields[13] = "12790";
    fields[23] = "1200";
    fields[33] = "900";
    let payload = fields.join("^");
    let txt = format!("0|H0STASP0|001|{payload}");

    let evs = parse_data_frame(&txt, &None, &clock());
    assert_eq!(evs.len(), 1);
    match &evs[0] {
        FeedEvent::Book { code, ask1, bid1, ask1_qty, bid1_qty, .. } => {
            assert_eq!(code, "0193T0");
            assert_eq!(*ask1, 12_810);
            assert_eq!(*bid1, 12_790);
            assert_eq!(*ask1_qty, 1_200);
            assert_eq!(*bid1_qty, 900);
        }
        other => panic!("unexpected event: {other:?}"),
    }
}

#[test]
fn frames_that_say_nothing_give_nothing() {
    for txt in ["", "0|H0STCNT0|001", "0|UNKNOWN|001|a^b", "0|H0STCNT0|001|", "0|H0STCNT0|001|a"] {
        assert!(parse_data_frame(txt, &None, &clock()).is_empty(), "{txt}");
    }
    // More records than fields, and a count that is no number.
    assert!(parse_data_frame("0|H0STCNT0|9|a^093015", &None, &clock()).is_empty());
    assert_eq!(parse_data_frame("0|H0STCNT0|x|a^093015", &None, &clock()).len(), 1);
    assert!(parse_data_frame("0|H0STCNT0|1|a^993015", &None, &clock()).is_empty());
    // The mark between the parts may stand in the last one.
    let evs = parse_data_frame("0|H0STCNT0|1|a|b^093015", &None, &clock());
    assert!(matches!(&evs[0], FeedEvent::Quote(q) if q.code == "a|b"));
}

#[test]
fn parse_notice_fill_only() {
    let mut f = vec!["0"; 20];
    f[4] = "02";
    f[8] = "0193T0";
    f[9] = "83";
    f[10] = "12805";
    f[11] = "093015";
    f[12] = "0";
    f[13] = "2";
    let raw = f.join("^");
    let fill = parse_notice(&raw, "20260722", stamp(1)).unwrap();
    let same_values_second_fill = parse_notice(&raw, "20260722", stamp(2)).unwrap();
    assert_eq!(fill.qty, 83);
    assert_eq!(fill.price, 128_050_000);
    assert!(matches!(fill.side, Side::Buy));
    assert_ne!(fill.fill_id, same_values_second_fill.fill_id);
    assert_eq!(fill.fill_id, "ws-notice:0:093015:1000:1");

    f[13] = "1";
    assert!(parse_notice(&f.join("^"), "20260722", stamp(3)).is_none());
}

#[test]
fn notices_with_a_broken_side_or_price_are_ignored() {
    let mut f = vec!["0"; 20];
    f[2] = "0000012345";
    f[4] = "02";
    f[8] = "0193T0";
    f[9] = "1";
    f[10] = "12805";
    f[11] = "093015";
    f[12] = "0";
    f[13] = "2";

    f[4] = "00";
    assert!(parse_notice(&f.join("^"), "20260722", stamp(1)).is_none());
    f[4] = "02";
    f[10] = "NaN";
    assert!(parse_notice(&f.join("^"), "20260722", stamp(1)).is_none());
    f[10] = "0";
    assert!(parse_notice(&f.join("^"), "20260722", stamp(1)).is_none());
    f[10] = "12805";
    f[12] = "1";
    assert!(parse_notice(&f.join("^"), "20260722", stamp(1)).is_none());
    f[12] = "0";
    f[8] = " ";
    assert!(parse_notice(&f.join("^"), "20260722", stamp(1)).is_none());
    assert!(parse_notice("", "20260722", stamp(1)).is_none());
}

#[test]
fn encrypted_notices_need_their_keys() {
    let mut f = vec!["0"; 20];
    f[2] = "0000012345";
    f[4] = "01";
    f[8] = "0193T0";
    f[9] = "1";
    f[10] = "12805";
    f[11] = "093015";
    f[12] = "0";
    f[13] = "2";
    let key = "0123456789abcdef0123456789abcdef";
    let iv = "abcdef0123456789";
    let enc = cbc::Encryptor::<aes::Aes256>::new_from_slices(key.as_bytes(), iv.as_bytes()).unwrap();
    let cipher = enc.encrypt_padded_vec_mut::<Pkcs7>(f.join("^").as_bytes());
    let b64 = base64::engine::general_purpose::STANDARD.encode(cipher);
    let txt = format!("1|H0STCNI0|001|{b64}");
    let keys = Some((key.to_string(), iv.to_string()));
    let evs = parse_data_frame(&txt, &keys, &clock());
    assert!(matches!(&evs[0], FeedEvent::Fill(fill) if fill.side == Side::Sell));
    assert!(parse_data_frame(&txt, &None, &clock()).is_empty());
    let wrong = Some((key.to_string(), "0000000000000000".to_string()));
    assert!(parse_data_frame("1|H0STCNI0|001|?", &wrong, &clock()).is_empty());
    let open = format!("0|H0STCNI0|001|{}", f.join("^"));
    assert_eq!(parse_data_frame(&open, &None, &clock()).len(), 1);
}

#[test]
fn pingpong_detected() {
    assert!(is_pingpong("{\"header\":{\"tr_id\":\"PINGPONG\",\"datetime\":\"20260717\"}}"));
    assert!(!is_pingpong("{\"header\":{\"tr_id\":\"H0STCNT0\"}}"));
}

#[test]
fn subscription_answers_keep_code_and_keys() {
    let failure = subscribe_ack(
        "{\"header\":{\"tr_id\":\"H0STCNT0\",\"tr_key\":\"0193T0\"},\"body\":{\"rt_cd\":\"9\",\"msg1\":\"INVALID APPROVAL KEY\"}}",
    )
    .unwrap();
    assert_eq!(failure.tr_id, "H0STCNT0");
    assert_eq!(failure.tr_key, "0193T0");
    assert!(!failure.success);
    assert_eq!(failure.message, "INVALID APPROVAL KEY");

    let success = subscribe_ack(
        "{\"header\":{\"tr_id\":\"H0STCNI0\",\"tr_key\":\"test-id\"},\"body\":{\"rt_cd\":\"0\",\"msg1\":\"SUBSCRIBE SUCCESS\",\"output\":{\"key\":\"secret-key\",\"iv\":\"secret-iv\"}}}",
    )
    .unwrap();
    assert!(success.success);
    assert_eq!(success.aes_key_iv, Some(("secret-key".into(), "secret-iv".into())));
    assert!(subscribe_ack("{\"header\":{\"tr_id\":\"PINGPONG\"}}").is_none());
    let bare = subscribe_ack("{\"header\":{\"tr_id\":\"X\"},\"body\":{\"rt_cd\":\"0\"}}").unwrap();
    assert_eq!(bare.tr_key, "?");
    assert_eq!(bare.message, "(메시지 없음)");
}

fn subs(list: &[(&str, &str)]) -> Vec<(String, String)> {
    list.iter().map(|(a, b)| (a.to_string(), b.to_string())).collect()
}

fn ack(tr_id: &str, tr_key: &str, rt_cd: &str, msg1: &str) -> String {
    format!(
        "{{\"header\":{{\"tr_id\":\"{tr_id}\",\"tr_key\":\"{tr_key}\"}},\"body\":{{\"rt_cd\":\"{rt_cd}\",\"msg1\":\"{msg1}\"}}}}"
    )
}

#[test]
fn subscriptions_are_sent_with_a_gap() {
    assert_eq!(subscribe_delay(0), 0);
    assert_eq!(subscribe_delay(1), SUBSCRIBE_INTERVAL);
    assert_eq!(subscribe_delay(2), 50_000_000);
    let text = subscribe_msg("approval", "H0STCNT0", "000660");
    let sent = json(&text);
    let header = sent.get("header").unwrap();
    assert!(header.field_is("approval_key", "approval"));
    assert!(header.field_is("tr_type", "1"));
    let input = sent.get_nested("body", "input").unwrap();
    assert!(input.field_is("tr_id", "H0STCNT0"));
    assert!(input.field_is("tr_key", "000660"));
    let cfg = WsConfig {
        url: "u".into(),
        approval_key: "k".into(),
        subs: subs(&[("H0STCNT0", "000660")]),
        notice: Some(("H0STCNI0".into(), "test-id".into())),
    };
    assert_eq!(
        required_subscriptions(&cfg),
        subs(&[("H0STCNT0", "000660"), ("H0STCNI0", "test-id")])
    );
}

#[test]
fn quotes_before_confirmation_are_kept_and_the_feed_connects_after_it() {
    let subscriptions = subs(&[("H0STCNT0", "000660"), ("H0STASP0", "000660")]);
    let mut fields = vec!["0"; 46];
    fields[0] = "000660";
    fields[1] = "100001";
    fields[2] = "185000";
    fields[12] = "10";
    let data = format!("0|H0STCNT0|001|{}", fields.join("^"));
    let mut session = FeedSession::new(&subscriptions);
    let first = ack("H0STCNT0", "000660", "0", "SUBSCRIBE SUCCESS");
    assert!(matches!(session.on_text(&first, &clock()), Ok(SocketAction::Nothing)));
    assert!(!session.is_confirmed());
    let quote = session.on_text(&data, &clock()).unwrap();
    assert!(matches!(&quote, SocketAction::Events(events) if matches!(events[0], FeedEvent::Quote(_))));
    assert!(!session.is_confirmed());
    let second = ack("H0STASP0", "000660", "0", "SUBSCRIBE SUCCESS");
    assert!(session.on_text(&second, &clock()).is_ok());
    assert!(session.is_confirmed());
    let life = "{\"header\":{\"tr_id\":\"PINGPONG\"}}";
    assert!(matches!(session.on_text(life, &clock()), Ok(SocketAction::Echo)));
}

#[test]
fn a_refused_subscription_fails_the_connection() {
    let mut session = FeedSession::new(&subs(&[("H0STASP0", "0193T0")]));
    let error = session
        .on_text(&ack("H0STASP0", "0193T0", "9", "TOO MANY REQUESTS"), &clock())
        .unwrap_err()
        .text();
    assert!(error.contains("H0STASP0/0193T0"), "{error}");
    assert!(error.contains("TOO MANY REQUESTS"), "{error}");
    assert!(!session.is_confirmed());
}

#[test]
fn unconfirmed_subscriptions_are_named_when_time_is_up() {
    let mut session =
        FeedSession::new(&subs(&[("H0STCNT0", "000660"), ("H0STASP0", "0197X0")]));
    let confirmed = ack("H0STCNT0", "000660", "0", "SUBSCRIBE SUCCESS");
    assert!(session.on_text(&confirmed, &clock()).is_ok());
    let error = session.timed_out(10_000_000).text();
    assert!(error.contains("시간 초과(0.01초)"), "{error}");
    assert!(error.contains("H0STASP0/0197X0"), "{error}");
    assert_eq!(
        pending_subscriptions(&subs(&[("b", "2"), ("a", "1"), ("b", "1")])),
        "a/1, b/1, b/2"
    );
    assert!(session.closed(true).text().contains("구독 확인 중 서버가"));
    assert!(session.closed(false).text().contains("구독 확인 중 스트림이"));
    let open = FeedSession::new(&Vec::new());
    assert!(open.closed(true).text().contains("서버가 웹소켓을 종료했습니다"));
    assert!(open.closed(false).text().contains("웹소켓 스트림 종료"));
    assert_eq!(ws_err("x").text(), "KIS API 오류: 웹소켓 오류: x");
}

#[test]
fn a_subscription_asked_twice_is_confirmed_once() {
    let mut session = FeedSession::new(&subs(&[("a", "1"), ("a", "1")]));
    assert!(session.on_text(&ack("a", "1", "0", "ok"), &clock()).is_ok());
    assert!(session.is_confirmed());
}

#[test]
fn waits_between_connections_grow() {
    let mut backoff = Backoff::new();
    let waits: Vec<u64> = (0..7).map(|_| backoff.lost(1)).collect();
    assert_eq!(waits, vec![1, 2, 4, 8, 16, 30, 30]);
    assert_eq!(backoff.lost(61), 1);
    assert_eq!(backoff.lost(60), 2);
}

fn order_row(
    ordered_qty: u64,
    filled_qty: u64,
    cancelled_qty: u64,
    remaining_qty: u64,
    rejected_qty: u64,
    avg_fill_price: f64,
) -> String {
    format!(
        "{{\"ord_dt\":\"20260722\",\"ord_gno_brno\":\"00950\",\"odno\":\"0000012345\",\"orgn_odno\":\"\",\"sll_buy_dvsn_cd\":\"01\",\"pdno\":\"0193T0\",\"ord_qty\":\"{ordered_qty}\",\"ord_tmd\":\"101500\",\"tot_ccld_qty\":\"{filled_qty}\",\"avg_prvs\":\"{avg_fill_price}\",\"cnc_cfrm_qty\":\"{cancelled_qty}\",\"rmn_qty\":\"{remaining_qty}\",\"rjct_qty\":\"{rejected_qty}\"}}"
    )
}

fn status(row: &str) -> Result<Option<BrokerOrderStatus>, AppError> {
    parse_exact_order_status(&json(row), "20260722", "0000012345")
}

#[test]
fn the_totals_of_one_order_are_read() {
    let status = status(&order_row(10, 10, 0, 0, 0, 10_005.0)).unwrap().unwrap();
    assert_eq!(status.trading_date, "20260722");
    assert_eq!(status.order_no, "0000012345");
    assert_eq!(status.org_no, "00950");
    assert_eq!(status.code, "0193T0");
    assert_eq!(status.side, Side::Sell);
    assert_eq!(status.ordered_qty, 10);
    assert_eq!(status.filled_qty, 10);
    assert_eq!(status.avg_fill_price, 100_050_000);
    assert!(status.is_terminal());
}

#[test]
fn only_totals_that_add_up_settle_an_order() {
    for (row, expected_terminal) in [
        (order_row(10, 10, 0, 0, 0, 10_005.0), true),
        (order_row(10, 4, 6, 0, 0, 10_005.0), true),
        (order_row(10, 0, 0, 0, 10, 0.0), true),
        (order_row(10, 4, 0, 6, 0, 10_005.0), false),
        (order_row(10, 0, 0, 0, 0, 0.0), false),
        (order_row(10, 10, 0, 0, 0, 0.0), false),
        (order_row(10, 11, 0, 0, 0, 10_005.0), false),
        (order_row(10, 6, 5, 0, 0, 10_005.0), false),
    ] {
        let status = status(&row).unwrap().unwrap();
        assert_eq!(status.is_terminal(), expected_terminal, "row={row}");
    }
}

#[test]
fn rows_of_another_order_or_day_are_left_out() {
    let row = order_row(10, 10, 0, 0, 0, 10_005.0);
    assert!(status(&row.replace("0000012345", "0000099999")).unwrap().is_none());
    assert!(status(&row.replace("20260722", "20260721")).unwrap().is_none());
}

#[test]
fn a_row_of_the_order_that_is_broken_is_an_error() {
    let row = order_row(10, 10, 0, 0, 0, 10_005.0);
    assert!(status(&row.replace("\"01\"", "\"00\"")).is_err());
    assert!(status(&row.replace("101500", "잘못된시각")).is_err());
}

#[test]
fn the_time_of_the_notice_comes_before_that_of_the_order() {
    let row = order_row(10, 10, 0, 0, 0, 10_005.0).replace("\"ord_dt\"", "\"infm_tmd\":\"101537\",\"ord_dt\"");
    assert_eq!(
        fill_timestamp(&json(&row), "20260722"),
        kst_str_to_fake_epoch("20260722", "101537").unwrap()
    );
}

#[test]
fn a_missing_notice_time_falls_back_to_that_of_the_order() {
    for invalid in ["null", "\"\"", "\"999999\"", "\"10:15:37\""] {
        let row = order_row(10, 10, 0, 0, 0, 10_005.0)
            .replace("\"ord_dt\"", &format!("\"infm_tmd\":{invalid},\"ord_dt\""));
        assert_eq!(
            fill_timestamp(&json(&row), "20260722"),
            kst_str_to_fake_epoch("20260722", "101500").unwrap()
        );
    }
}

fn page(text: &str, tr_cont: &str) -> RestPage {
    RestPage { body: json(text), tr_cont: tr_cont.into() }
}

#[test]
fn the_status_of_an_order_is_asked_page_by_page() {
    assert!(matches!(order_status("2026", "1"), Err(AppError::Parse(text)) if text.contains("YYYYMMDD")));
    assert!(matches!(order_status("20260722", " "), Err(AppError::Parse(text)) if text == "조회할 주문번호가 비어 있습니다"));
    let query = order_status("20260722", " 0000012345 ").unwrap();
    assert_eq!(query.tr_cont(), None);
    assert_eq!(query.params("1", "01")[9], ("ODNO", "0000012345".to_string()));
    let row = order_row(10, 4, 0, 6, 0, 10_005.0);
    let first = page(
        &format!("{{\"rt_cd\":\"0\",\"output1\":[{row}],\"ctx_area_fk100\":\"f\",\"ctx_area_nk100\":\"n\"}}"),
        "M",
    );
    let query = query.accept(&first).unwrap();
    assert!(!query.finished());
    assert_eq!(query.tr_cont(), Some("N"));
    assert_eq!(query.params("1", "01")[13], ("CTX_AREA_FK100", "f".to_string()));
    let last = page(&format!("{{\"rt_cd\":\"0\",\"output1\":[{row}]}}"), "M");
    let query = query.accept(&last).unwrap();
    assert!(query.finished());
    assert_eq!(query.into_result().unwrap().filled_qty, 4);
}

#[test]
fn two_answers_about_one_order_must_agree() {
    let query = order_status("20260722", "0000012345").unwrap();
    let a = order_row(10, 4, 0, 6, 0, 10_005.0);
    let b = order_row(10, 5, 0, 5, 0, 10_005.0);
    let told = query.accept(&page(&format!("{{\"rt_cd\":\"0\",\"output1\":[{a},{b}]}}"), "D"));
    assert!(matches!(told, Err(AppError::Parse(text)) if text == "같은 주문번호의 일별 주문상태가 서로 다릅니다: 20260722/0000012345"));
    let query = order_status("20260722", "0000012345").unwrap();
    assert!(matches!(query.accept(&page("{\"rt_cd\":\"1\"}", "")), Err(AppError::Kis(_))));
}

#[test]
fn no_answer_has_more_than_twenty_pages() {
    let mut query = today_fills("20260722");
    let more = page(
        "{\"rt_cd\":\"0\",\"output1\":[],\"ctx_area_fk100\":\"f\",\"ctx_area_nk100\":\"\"}",
        "F",
    );
    for i in 0..20 {
        assert!(!query.finished(), "{i}");
        query = query.accept(&more).unwrap();
    }
    assert!(query.finished());
}

#[test]
fn fills_of_a_day_are_gathered() {
    let query = today_fills("20260722");
    assert_eq!(query.params("1", "01")[7], ("CCLD_DVSN", "01".to_string()));
    let rows = format!(
        "{},{}",
        order_row(10, 4, 0, 6, 0, 10_005.5),
        order_row(10, 0, 0, 10, 0, 0.0)
    );
    let query = query
        .accept(&page(&format!("{{\"rt_cd\":\"0\",\"output1\":[{rows}]}}"), ""))
        .unwrap();
    assert!(query.finished());
    let fills = query.into_fills();
    assert_eq!(fills.len(), 1);
    assert_eq!(fills[0].fill_id, "daily:0000012345:4:10005.5");
    assert_eq!(fills[0].price, 100_055_000);
    let broken = order_row(10, 4, 0, 6, 0, 1.0).replace("101500", "x");
    let told = today_fills("20260722")
        .accept(&page(&format!("{{\"rt_cd\":\"0\",\"output1\":[{broken}]}}"), ""));
    assert!(matches!(told, Err(AppError::Parse(text)) if text == "일별 주문체결의 체결시각이 올바르지 않습니다: 20260722/0000012345"));
}

#[test]
fn open_orders_are_gathered() {
    let row = "{\"odno\":\"1\",\"sll_buy_dvsn_cd\":\"02\",\"psbl_qty\":\"3\",\"ord_qty\":\"5\",\"tot_ccld_qty\":\"2\",\"ord_unpr\":\"12800\",\"ord_tmd\":\"101500\"}";
    let none = "{\"odno\":\"2\",\"psbl_qty\":\"0\"}";
    let query = open_orders()
        .accept(&page(&format!("{{\"rt_cd\":\"0\",\"output\":[{row},{none}]}}"), "D"), "20260722")
        .unwrap();
    assert!(query.finished());
    let orders = query.into_orders();
    assert_eq!(orders.len(), 1);
    assert_eq!(orders[0].side, Side::Buy);
    assert_eq!(orders[0].cancelable_qty, 3);
    assert_eq!(orders[0].price, 128_000_000);
    let side = open_orders().accept(
        &page("{\"rt_cd\":\"0\",\"output\":[{\"psbl_qty\":\"1\"}]}", ""),
        "20260722",
    );
    assert!(matches!(side, Err(AppError::Parse(text)) if text.contains("매도매수 구분값")));
    let time = open_orders().accept(
        &page(
            "{\"rt_cd\":\"0\",\"output\":[{\"odno\":\"7\",\"psbl_qty\":\"1\",\"sll_buy_dvsn_cd\":\"01\",\"ord_tmd\":\"x\"}]}",
            "",
        ),
        "20260722",
    );
    assert!(matches!(time, Err(AppError::Parse(text)) if text.ends_with("20260722/7")));
}

#[test]
fn session_bounds_by_market() {
    let (open, close) = session_bounds("UN");
    assert_eq!(write_hms(open), "080000");
    assert_eq!(write_hms(close), "200000");
    let (open, close) = session_bounds("J");
    assert_eq!(write_hms(open), "090000");
    assert_eq!(write_hms(close), "153000");
}

#[test]
fn minus_one_minute_respects_session_open() {
    let krx_open = 9 * 3_600;
    assert_eq!(minus_one_minute("093000", krx_open).unwrap(), "092900");
    assert!(minus_one_minute("090000", krx_open).is_none());
    let un_open = 8 * 3_600;
    assert_eq!(minus_one_minute("083000", un_open).unwrap(), "082900");
    assert!(minus_one_minute("080000", un_open).is_none());
    assert!(minus_one_minute("x", un_open).is_none());
}

#[test]
fn a_leap_second_goes_back_to_the_second_it_counts_as() {
    let krx_open = 9 * 3_600;
    assert_eq!(minus_one_minute("100060", krx_open).unwrap(), "100000");
    assert_eq!(minus_one_minute("090060", krx_open).unwrap(), "090000");
}

#[test]
fn snapshots_use_the_ask_for_the_price() {
    let book = json(
        "{\"rt_cd\":\"0\",\"output1\":{\"askp1\":\"12805\",\"bidp1\":\"12800\",\"askp_rsqn1\":\"7\",\"bidp_rsqn1\":\"9\"}}",
    );
    let top = read_book(&book).unwrap();
    assert!(!needs_price(&top));
    let quote = snapshot("0193T0", top, None, 100, 5);
    assert_eq!((quote.price, quote.change_rate, quote.book_ts), (12_805, 0, 100));
    let empty = read_book(&json("{\"rt_cd\":\"0\"}")).unwrap();
    assert!(needs_price(&empty));
    let price = json("{\"rt_cd\":\"0\",\"output\":{\"stck_prpr\":\"12790\",\"prdy_ctrt\":\"-1.5\"}}");
    let quote = snapshot("0193T0", empty, Some(read_price(&price).unwrap()), 100, 5);
    assert_eq!((quote.price, quote.change_rate), (12_790, -1_500_000_000));
    assert!(read_book(&json("{}")).is_err());
    assert!(read_price(&json("{}")).is_err());
    assert_eq!(snapshot_params("c")[0], ("FID_COND_MRKT_DIV_CODE", "UN".to_string()));
}

fn minute_row(date: &str, time: &str, close: u64) -> String {
    format!(
        "{{\"stck_bsop_date\":\"{date}\",\"stck_cntg_hour\":\"{time}\",\"stck_oprc\":\"1\",\"stck_hgpr\":\"2\",\"stck_lwpr\":\"1\",\"stck_prpr\":\"{close}\",\"cntg_vol\":\"10\"}}"
    )
}

fn minute_reply(rows: &[String]) -> Json {
    json(&format!("{{\"rt_cd\":\"0\",\"output2\":[{}]}}", rows.join(",")))
}

#[test]
fn bars_of_a_page() {
    let candle = row_to_candle(&json(&minute_row("20260722", "093000", 12_800))).unwrap();
    assert_eq!(candle.close, 12_800);
    assert_eq!(candle.time, kst_str_to_fake_epoch("20260722", "093000").unwrap());
    assert!(row_to_candle(&json("{}")).is_none());
    let rows = [minute_row("20260722", "093100", 2), minute_row("20260722", "093000", 1)];
    let page = read_minutes(&minute_reply(&rows), 32_400).unwrap();
    assert_eq!(page.rows, 2);
    assert_eq!(page.candles.len(), 2);
    assert_eq!(page.next.as_deref(), Some("092900"));
    assert!(read_minutes(&json("{}"), 32_400).is_err());
}

fn at(date: &str, time: &str) -> i64 {
    kst_str_to_fake_epoch(date, time).unwrap()
}

fn venue(scan: &CandleScan) -> String {
    let request = scan.request().unwrap();
    let found = request.params.iter().find(|p| p.0 == "FID_COND_MRKT_DIV_CODE");
    found.unwrap().1.clone()
}

#[test]
fn a_scan_goes_back_over_the_weekend() {
    // A Monday after the close.
    let now = at("20260720", "210000");
    let scan = candles_1m("000660", now);
    let request = scan.request().unwrap();
    assert_eq!(request.tr_id, "FHKST03010200");
    assert_eq!(request.params[3], ("FID_INPUT_HOUR_1", "200000".to_string()));
    let rows = [minute_row("20260720", "093000", 1), minute_row("20260720", "093000", 2)];
    let scan = scan.accept(now, Ok(minute_reply(&rows))).unwrap();
    // Fewer rows than a page: on to Friday.
    let request = scan.request().unwrap();
    assert_eq!(request.tr_id, "FHKST03010230");
    assert_eq!(request.params[2], ("FID_INPUT_DATE_1", "20260717".to_string()));
    let mut scan = scan;
    let mut days = 0;
    while scan.request().is_some() {
        scan = scan.accept(now, Ok(minute_reply(&[]))).unwrap();
        days += 1;
    }
    // Fifteen days back from a Monday hold ten working days.
    assert_eq!(days, 10);
    let bars = scan.finish();
    assert_eq!(bars.len(), 1);
    assert_eq!(bars[0].close, 1);
}

#[test]
fn a_scan_falls_back_to_the_exchange_once() {
    let now = at("20260720", "100000");
    let scan = candles_1m("000660", now);
    assert_eq!(venue(&scan), "UN");
    let scan = scan.accept(now, Err(AppError::Http("x".into()))).unwrap();
    assert_eq!(venue(&scan), "J");
    let again = scan.accept(now, Ok(json("{\"rt_cd\":\"1\",\"msg1\":\"실패\"}")));
    assert!(matches!(again, Err(AppError::Kis(text)) if text == "실패"));
}

#[test]
fn a_scan_before_the_opening_has_no_today() {
    let scan = candles_1m("000660", at("20260721", "073000"));
    let request = scan.request().unwrap();
    assert_eq!(request.params[2], ("FID_INPUT_DATE_1", "20260720".to_string()));
    let sunday = candles_1m("000660", at("20260719", "120000"));
    assert_eq!(sunday.request().unwrap().params[2].1, "20260717");
}

#[test]
fn a_scan_turns_full_pages() {
    let now = at("20260720", "100000");
    let rows: Vec<String> =
        (0..30).map(|i| minute_row("20260720", &format!("09{:02}00", 59 - i), i)).collect();
    let scan = candles_1m("000660", now).accept(now, Ok(minute_reply(&rows))).unwrap();
    let request = scan.request().unwrap();
    assert_eq!(request.tr_id, "FHKST03010200");
    assert_eq!(request.params[3], ("FID_INPUT_HOUR_1", "092900".to_string()));
}

#[test]
fn what_follows_a_time_takes_it_as_it_is() {
    let fields: Vec<String> = "c^x^100".split('^').map(String::from).collect();
    match tick_at(&fields, 0, 3, Some(9), 4) {
        Some(FeedEvent::Quote(q)) => assert_eq!((q.price, q.trade_ts), (100, 9)),
        _ => panic!("no trade"),
    }
    assert!(tick_at(&fields, 0, 3, None, 4).is_none());
    match book_at(&fields, 0, 3, Some(9)) {
        Some(FeedEvent::Book { ts, ask1, .. }) => assert_eq!((ts, ask1), (9, 0)),
        _ => panic!("no book"),
    }
    let mut f: Vec<String> = vec!["0".into(); 14];
    f[4] = "01".into();
    f[9] = "2".into();
    f[10] = "5".into();
    f[13] = "2".into();
    assert_eq!(notice_at(&f, Some(9), stamp(1)).unwrap().filled_at, 9);
    assert!(notice_at(&f, None, stamp(1)).is_none());
    assert_eq!(minute_earlier(36_000, 0, 32_400).unwrap(), "095900");
    assert_eq!(minute_earlier(36_059, 1_000_000_000, 32_400).unwrap(), "100000");
    assert!(minute_earlier(32_400, 0, 32_400).is_none());
    let row = json("{\"stck_prpr\":\"70\",\"odno\":\"1\",\"psbl_qty\":\"3\",\"sll_buy_dvsn_cd\":\"02\"}");
    let bar = bar_at(&row, 60);
    assert_eq!((bar.time, bar.close), (60, 70));
    assert_eq!(order_status_at(&row, "20260722", "1", Some(9)).unwrap().unwrap().ordered_at, 9);
    assert!(order_status_at(&row, "20260722", "1", None).is_err());
    assert_eq!(open_order_at(&row, "20260722", Some(9)).unwrap().unwrap().cancelable_qty, 3);
    assert!(is_sign_of_life(&json("{\"header\":{\"tr_id\":\"PINGPONG\"}}")));
    assert!(!is_sign_of_life(&json("{}")));
}

#[test]
fn what_a_cipher_answers_is_a_text_or_a_fault() {
    assert_eq!(settle_plain(Ok(vec![0xea, 0xb0, 0x80])).unwrap(), "가");
    let told = settle_plain(Ok(vec![0xff])).unwrap_err().text();
    assert!(told.contains("UTF-8 변환 실패: "));
    let told = settle_plain(Err(CipherFault::Length("x".into()))).unwrap_err().text();
    assert_eq!(told, "파싱 오류: AES key/iv 길이 오류: x");
    let told = settle_plain(Err(CipherFault::Padding("x".into()))).unwrap_err().text();
    assert_eq!(told, "파싱 오류: AES 복호 실패: x");
}
