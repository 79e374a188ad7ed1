use aes::cipher::block_padding::Pkcs7;
use aes::cipher::{BlockEncryptMut, KeyIvInit};
use base64::Engine;
use easy_scalping::error::AppError;
use easy_scalping::json::{read_json, write_json, Json};
use easy_scalping::kis::account::{
    balance_params, cash_params, max_buy_qty, orderable_cash, positions, qty_params,
};
use easy_scalping::kis::auth::{
    app_key_fingerprint, read_token, write_token, ApprovalKeyIssuer, CachedToken, TokenManager,
};
use easy_scalping::kis::calendar::{
    holiday_params, market_days, parse_market_days, validate_basis_date,
};
use easy_scalping::kis::crypto::aes_cbc_decrypt;
use easy_scalping::kis::numbers::{num_billionths, num_u64, read_plain, write_plain};
use easy_scalping::kis::order::{
    cancel_order, cancel_reply, check_order_rt, order_cash, order_reply, order_tr, parse_order_ack,
    ORD_DVSN_IOC_LIMIT,
};
use easy_scalping::kis::rest::{
    is_rate_limit_error, is_token_expired_error, kis_message, read_response, GetRetry, GetStep,
    KisRest, PostRetry, PostStep, RateLimiter, POST_RATE_LIMIT_COOLDOWN, REAL_BASE, REAL_WS,
};
use easy_scalping::kis::{build_subs, KisBroker};
use easy_scalping::settings::Settings;
use easy_scalping::types::Side;

fn json(text: &str) -> Json {
    read_json(text).unwrap()
}

fn codes(v: &[&str]) -> Vec<String> {
    v.iter().map(|s| s.to_string()).collect()
}

fn connected() -> Settings {
    let mut settings = Settings::default();
    settings.real_trading_confirmed = true;
    settings.app_key = "key".into();
    settings.app_secret = "secret".into();
    settings.cano = "12345678".into();
    settings
}

#[test]
fn rate_limit_error_detection() {
    assert!(is_rate_limit_error(
        "HTTP 500 Internal Server Error: 초당 거래건수를 초과하였습니다."
    ));
    assert!(is_rate_limit_error("EGW00201"));
    assert!(!is_rate_limit_error("주문가능금액이 부족합니다"));
    assert!(!is_rate_limit_error("모의투자 장종료"));
}

#[test]
fn token_expired_error_detection() {
    assert!(is_token_expired_error(
        "HTTP 500 Internal Server Error: 기간이 만료된 token 입니다."
    ));
    assert!(is_token_expired_error("EGW00123"));
    assert!(is_token_expired_error("expired token"));
    assert!(!is_token_expired_error("접근토큰 발급 실패"));
    assert!(!is_token_expired_error("APP KEY가 유효하지 않습니다"));
    assert!(is_token_expired_error("TOKEN HAS EXPIRED"));
}

#[test]
fn post_rate_limit_is_classified_as_definite_rejection() {
    let rate_limited = KisRest::classify_post_result(Err(AppError::Kis(
        "HTTP 500 Internal Server Error: 초당 거래건수를 초과하였습니다.".into(),
    )))
    .unwrap_err();
    let rejection = rate_limited.order_rejection().expect("a definite rejection");
    assert_eq!(rejection.code(), Some("EGW00201"));
    assert!(!rejection.is_buying_power_shortfall());

    let unknown = KisRest::classify_post_result(Err(AppError::Kis(
        "KIS 성공 응답에 주문번호가 없습니다".into(),
    )))
    .unwrap_err();
    assert!(matches!(unknown, AppError::Kis(_)));
    assert!(matches!(
        KisRest::classify_post_result(Ok(Json::Bool(true))),
        Ok(Json::Bool(true))
    ));
}

#[test]
fn limiter_enforces_min_gap() {
    let mut limiter = RateLimiter::new(50, 1_000);
    assert_eq!(limiter.acquire(1_000), None);
    assert_eq!(limiter.acquire(1_010), Some(1_050));
    assert_eq!(limiter.acquire(1_050), None);
    assert_eq!(limiter.acquire(1_050), Some(1_100));
    assert_eq!(limiter.acquire(1_100), None);
}

#[test]
fn limiter_does_not_burst_after_runtime_delay() {
    let mut limiter = RateLimiter::new(30, 0);
    assert_eq!(limiter.acquire(0), None);
    // Three callers wake late, at the same time.
    assert_eq!(limiter.acquire(110), None);
    assert_eq!(limiter.acquire(110), Some(140));
    assert_eq!(limiter.acquire(110), Some(140));
    assert_eq!(limiter.acquire(140), None);
    assert_eq!(limiter.acquire(140), Some(170));
}

#[test]
fn limiter_global_cooldown_delays_waiting_call() {
    let mut limiter = RateLimiter::new(40, 0);
    assert_eq!(limiter.acquire(0), None);
    assert_eq!(limiter.acquire(0), Some(40));
    limiter.defer_for(0, 120);
    assert_eq!(limiter.acquire(40), Some(120));
    // A shorter wait takes nothing back.
    limiter.defer_for(10, 20);
    assert_eq!(limiter.acquire(40), Some(120));
    assert_eq!(limiter.acquire(120), None);
}

#[test]
fn queries_are_repeated_with_growing_waits() {
    let mut retry = GetRetry::new();
    let limited = Some("EGW00201");
    assert_eq!(retry.after(limited), GetStep::Defer(500_000_000));
    assert_eq!(retry.after(Some("EGW00123")), GetStep::RefreshToken);
    assert_eq!(retry.after(limited), GetStep::Defer(1_000_000_000));
    assert_eq!(retry.after(limited), GetStep::Defer(2_000_000_000));
    assert_eq!(retry.after(Some("EGW00123")), GetStep::Return);
    assert_eq!(retry.after(limited), GetStep::Defer(4_000_000_000));
    assert_eq!(retry.after(limited), GetStep::Return);
    assert_eq!(retry.after(None), GetStep::Return);
}

#[test]
fn orders_are_repeated_for_a_token_alone() {
    let mut retry = PostRetry::new();
    assert_eq!(retry.after(Some("EGW00201")), PostStep::CoolDown);
    assert_eq!(retry.after(Some("EGW00123")), PostStep::RefreshToken);
    assert_eq!(retry.after(Some("EGW00123")), PostStep::Return);
    assert_eq!(retry.after(None), PostStep::Return);
    assert_eq!(POST_RATE_LIMIT_COOLDOWN, 1_000_000_000);
    let failed: Result<(), AppError> = Err(AppError::Kis("EGW00201".into()));
    assert_eq!(kis_message(&failed), Some("EGW00201"));
    let other: Result<(), AppError> = Err(AppError::Http("EGW00201".into()));
    assert_eq!(kis_message(&other), None);
}

#[test]
fn replies_are_read_by_their_status() {
    let read = read_response(200, "200 OK", "{\"rt_cd\":\"0\"}").unwrap();
    assert!(read.field_is("rt_cd", "0"));
    let told = read_response(500, "500 Internal Server Error", "{\"msg1\":\" 오류 \"}");
    assert!(matches!(told, Err(AppError::Kis(text)) if text == "HTTP 500 Internal Server Error: 오류"));
    let bare = read_response(502, "502 Bad Gateway", "{}");
    assert!(matches!(bare, Err(AppError::Kis(text)) if text == "HTTP 502 Bad Gateway: {}"));
    let broken = read_response(200, "200 OK", "<html>");
    assert!(matches!(broken, Err(AppError::Kis(text)) if text == "HTTP 200 OK: <html>"));
}

#[test]
fn result_codes_decide() {
    assert!(KisRest::check_rt(&json("{\"rt_cd\":\"0\"}")).is_ok());
    let told = KisRest::check_rt(&json("{\"rt_cd\":\"1\",\"msg1\":\" 조회 실패 \"}"));
    assert!(matches!(told, Err(AppError::Kis(text)) if text == "조회 실패"));
    let silent = KisRest::check_rt(&json("{}"));
    assert!(matches!(silent, Err(AppError::Kis(text)) if text == "알 수 없는 KIS 오류"));
}

#[test]
fn a_connection_needs_consent_and_keys() {
    let rest = KisRest::new(&connected()).unwrap();
    assert_eq!(rest.base, REAL_BASE);
    assert_eq!(rest.ws_url(), REAL_WS);
    let mut settings = connected();
    settings.real_trading_confirmed = false;
    assert!(matches!(KisRest::new(&settings), Err(AppError::Config(text)) if text == "실전 연결 확인이 필요합니다"));
    let mut settings = connected();
    settings.app_secret = String::new();
    assert!(matches!(KisRest::new(&settings), Err(AppError::Config(text)) if text == "APP KEY/SECRET이 설정되지 않았습니다"));
    let mut settings = connected();
    settings.cano = String::new();
    assert!(matches!(KisBroker::new(&settings), Err(AppError::Config(text)) if text == "계좌번호가 설정되지 않았습니다"));
}

#[test]
fn headers_sign_a_request() {
    let rest = KisRest::new(&connected()).unwrap();
    let first = rest.headers("token", "TTTC0081R", None);
    assert_eq!(first[0], ("authorization", "Bearer token".to_string()));
    assert_eq!(first.len(), 5);
    assert_eq!(rest.headers("token", "TTTC0081R", Some("")).len(), 5);
    let next = rest.headers("token", "TTTC0081R", Some("N"));
    assert_eq!(next[5], ("tr_cont", "N".to_string()));
}

#[test]
fn numbers_of_replies() {
    assert_eq!(read_plain("12345"), Some(12_345_000_000_000));
    assert_eq!(read_plain("-1.23"), Some(-1_230_000_000));
    assert_eq!(read_plain("+.5"), Some(500_000_000));
    assert_eq!(read_plain("7."), Some(7_000_000_000));
    assert_eq!(read_plain("0.1234567891"), Some(123_456_789));
    assert_eq!(read_plain("1e3"), Some(1_000_000_000_000));
    assert_eq!(read_plain("-2.5E-1"), Some(-250_000_000));
    let limit = 1_000_000_000_000_000_000_000_000_000_000_i128;
    assert_eq!(read_plain("1e300"), Some(limit));
    assert_eq!(read_plain("inf"), Some(limit));
    assert_eq!(read_plain("-Infinity"), Some(-limit));
    for text in ["", ".", "-", "1e", "e3", "1e+", "NaN", "infinit", "1.2.3", "1,000", " 1"] {
        assert_eq!(read_plain(text), None, "{text}");
    }
    assert_eq!(num_u64(Some(&Json::Text("1e3".into()))), 1_000);
    assert_eq!(num_u64(Some(&Json::Text("inf".into()))), u64::MAX);
    assert_eq!(num_u64(Some(&Json::Text("-inf".into()))), 0);
    assert_eq!(num_u64(Some(&Json::Text(" 12.9 ".into()))), 12);
    assert_eq!(num_u64(Some(&Json::Text("-3".into()))), 0);
    assert_eq!(num_u64(Some(&Json::Text("99999999999999999999".into()))), u64::MAX);
    assert_eq!(num_u64(Some(&Json::Number("5".into()))), 0);
    assert_eq!(num_u64(None), 0);
    assert_eq!(num_billionths(Some(&Json::Text("2.5".into()))), 2_500_000_000);
    assert_eq!(write_plain(10_005_000_000_000), "10005");
    assert_eq!(write_plain(10_005_500_000_000), "10005.5");
    assert_eq!(write_plain(-1_230_000_000), "-1.23");
    assert_eq!(write_plain(10_000_000), "0.01");
    assert_eq!(write_plain(0), "0");
}

#[test]
fn fingerprint_is_stable_and_key_specific() {
    assert_eq!(app_key_fingerprint("abc"), app_key_fingerprint("abc"));
    assert_ne!(app_key_fingerprint("abc"), app_key_fingerprint("abd"));
    assert_eq!(app_key_fingerprint(""), "cbf29ce484222325");
    assert_eq!(app_key_fingerprint("a"), "af63dc4c8601ec8c");
}

fn manager() -> TokenManager {
    TokenManager::new(
        "https://example.test".into(),
        "app-key".into(),
        "app-secret".into(),
    )
}

fn token(value: &str) -> CachedToken {
    CachedToken {
        access_token: value.into(),
        expires_at: 1_000_000,
        base: "https://example.test".into(),
        app_key_fingerprint: app_key_fingerprint("app-key"),
    }
}

#[test]
fn a_rejected_token_is_dropped_from_memory_and_file() {
    let mut manager = manager();
    assert_eq!(manager.bearer(0, Some(token("expired-token"))).as_deref(), Some("expired-token"));
    let dropped = manager.invalidate_rejected("expired-token", Some(&token("expired-token")));
    assert!(dropped.memory && dropped.file);
    assert!(manager.cached().is_none());
}

#[test]
fn a_late_rejection_does_not_drop_a_new_token() {
    let mut manager = manager();
    assert!(manager.bearer(0, Some(token("new-token"))).is_some());
    let dropped = manager.invalidate_rejected("expired-token", Some(&token("new-token")));
    assert!(!dropped.memory && !dropped.file);
    assert_eq!(manager.cached().map(|t| t.access_token.as_str()), Some("new-token"));
}

#[test]
fn tokens_are_kept_while_they_hold() {
    let mut manager = manager();
    let reply = json("{\"access_token\":\"t\",\"expires_in\":1000}");
    let kept = manager.accept(5_000, &reply).unwrap();
    assert_eq!(kept.expires_at, 6_000);
    assert_eq!(manager.bearer(5_699, None).as_deref(), Some("t"));
    assert_eq!(manager.bearer(5_700, None), None);
    // A token in memory that is over is not replaced by the file's.
    assert_eq!(manager.bearer(5_700, Some(token("other"))), None);
    let day = manager.accept(0, &json("{\"access_token\":\"u\"}")).unwrap();
    assert_eq!(day.expires_at, 86_400);
    let refused = manager.accept(0, &json("{\"error\":\"x\"}"));
    assert!(matches!(refused, Err(AppError::Kis(text)) if text == "토큰 발급 실패: {\"error\":\"x\"}"));
}

#[test]
fn tokens_of_another_key_are_not_used() {
    let mut other = token("t");
    other.app_key_fingerprint = app_key_fingerprint("other-key");
    assert_eq!(manager().bearer(0, Some(other)), None);
    let mut other = token("t");
    other.base = "https://else.test".into();
    assert_eq!(manager().bearer(0, Some(other)), None);
}

#[test]
fn token_files_read_back() {
    let text = write_token(&token("t"));
    let read = read_token(&text).unwrap();
    assert_eq!(read.access_token, "t");
    assert_eq!(read.expires_at, 1_000_000);
    assert_eq!(read.base, "https://example.test");
    assert_eq!(read.app_key_fingerprint, app_key_fingerprint("app-key"));
    let early = read_token("{\"access_token\":\"t\",\"expires_at\":-5}").unwrap();
    assert_eq!(early.expires_at, -5);
    assert_eq!(early.base, "");
    assert!(read_token("{\"access_token\":\"t\",\"expires_at\":1.5}").is_none());
    assert!(read_token("{\"expires_at\":1}").is_none());
    assert!(read_token("{\"access_token\":\"t\",\"expires_at\":1,\"base\":2}").is_none());
    assert!(read_token("?").is_none());
    let listed = read_token("[\"t\",7,\"gateway\"]").unwrap();
    assert_eq!(listed.access_token, "t");
    assert_eq!(listed.expires_at, 7);
    assert_eq!(listed.base, "gateway");
    assert_eq!(listed.app_key_fingerprint, "");
    assert!(read_token("[\"t\"]").is_none());
    assert!(read_token("{\"access_token\":\"t\",\"expires_at\":1,\"access_token\":\"t\"}").is_none());
    assert!(read_token("{\"expires\\u005fat\":1,\"access_token\":\"t\",\"expires_at\":1}").is_none());
    let other = "{\"access_token\":\"t\",\"expires_at\":1,\"x\":{\"base\":1,\"base\":2},\"x\":0}";
    assert_eq!(read_token(other).unwrap().access_token, "t");
    assert!(read_token("[\"t\",7,\"\",\"\",\"\"]").is_none());
}

#[test]
fn credentials_are_sent_under_their_names() {
    let manager = manager();
    assert_eq!(manager.token_url(), "https://example.test/oauth2/tokenP");
    let body = manager.token_request();
    assert!(body.field_is("grant_type", "client_credentials"));
    assert!(body.field_is("appkey", "app-key"));
    assert!(body.field_is("appsecret", "app-secret"));
    let issuer: ApprovalKeyIssuer = manager.approval_issuer();
    assert_eq!(issuer.url(), "https://example.test/oauth2/Approval");
    assert!(issuer.request().field_is("secretkey", "app-secret"));
    assert_eq!(issuer.read_key(&json("{\"approval_key\":\"k\"}")).unwrap(), "k");
    let refused = issuer.read_key(&json("{}"));
    assert!(matches!(refused, Err(AppError::Kis(text)) if text == "approval_key 발급 실패: {}"));
}

#[test]
fn roundtrip() {
    let key = "0123456789abcdef0123456789abcdef";
    let iv = "abcdef0123456789";
    let plain = "12345678|ACNT|0000012345|매수^0193T0^10^12800";

    let enc = cbc::Encryptor::<aes::Aes256>::new_from_slices(key.as_bytes(), iv.as_bytes()).unwrap();
    let cipher = enc.encrypt_padded_vec_mut::<Pkcs7>(plain.as_bytes());
    let b64 = base64::engine::general_purpose::STANDARD.encode(cipher);

    let out = aes_cbc_decrypt(key, iv, &b64).unwrap();
    assert_eq!(out, plain);
    assert_eq!(aes_cbc_decrypt(key, iv, &format!(" {b64}\n")).unwrap(), plain);
}

#[test]
fn bad_key_length_fails() {
    assert!(aes_cbc_decrypt("short", "abcdef0123456789", "aGVsbG8=").is_err());
}

#[test]
fn decryption_says_what_failed() {
    let key = "0123456789abcdef0123456789abcdef";
    let iv = "abcdef0123456789";
    let begins = |result: Result<String, AppError>, start: &str| {
        matches!(result, Err(AppError::Parse(text)) if text.starts_with(start))
    };
    assert!(begins(aes_cbc_decrypt(key, iv, "?"), "base64 디코드 실패: "));
    assert!(begins(aes_cbc_decrypt(key, "short", "aGVsbG8="), "AES key/iv 길이 오류: Invalid Length"));
    assert!(begins(aes_cbc_decrypt(key, iv, "aGVsbG8="), "AES 복호 실패: Unpad Error"));
    let enc = cbc::Encryptor::<aes::Aes256>::new_from_slices(key.as_bytes(), iv.as_bytes()).unwrap();
    let cipher = enc.encrypt_padded_vec_mut::<Pkcs7>(&[0xff, 0xfe]);
    let b64 = base64::engine::general_purpose::STANDARD.encode(cipher);
    assert!(begins(aes_cbc_decrypt(key, iv, &b64), "UTF-8 변환 실패: "));
}

#[test]
fn only_a_refusal_by_the_broker_settles_an_order() {
    let error = check_order_rt(&json(
        "{\"rt_cd\":\"1\",\"msg_cd\":\"APBK1234\",\"msg1\":\"주문 불가\"}",
    ))
    .expect_err("a refusal");
    let rejection = error.order_rejection().expect("a rejection");
    assert_eq!(rejection.code(), Some("APBK1234"));
    assert_eq!(rejection.message(), "주문 불가");

    let silent = check_order_rt(&json("{\"rt_cd\":\"1\",\"msg_cd\":\" \"}")).unwrap_err();
    let rejection = silent.order_rejection().unwrap();
    assert_eq!(rejection.code(), None);
    assert_eq!(rejection.message(), "알 수 없는 KIS 주문 거부");
    assert!(check_order_rt(&json("{\"rt_cd\":\"0\"}")).is_ok());
}

#[test]
fn a_reply_without_the_orders_number_settles_nothing() {
    let missing_order = json(
        "{\"rt_cd\":\"0\",\"msg1\":\"정상\",\"output\":{\"ODNO\":\"\",\"KRX_FWDG_ORD_ORGNO\":\"00950\"}}",
    );
    let error = parse_order_ack(&missing_order, "주문 접수").expect_err("no number");
    assert!(matches!(error, AppError::Kis(_)));

    let missing_org = json(
        "{\"rt_cd\":\"0\",\"msg1\":\"정상\",\"output\":{\"ODNO\":\"0000012345\",\"KRX_FWDG_ORD_ORGNO\":\"\"}}",
    );
    let error = parse_order_ack(&missing_org, "주문 접수").expect_err("no office");
    assert!(matches!(error, AppError::Kis(_)));

    let taken = json(
        "{\"rt_cd\":\"0\",\"output\":{\"ODNO\":\" 0000012345 \",\"KRX_FWDG_ORD_ORGNO\":\"00950\"}}",
    );
    let ack = order_reply(&taken).unwrap();
    assert_eq!(ack.order_no, "0000012345");
    assert_eq!(ack.org_no, "00950");
    assert_eq!(ack.message, "주문 접수");
    assert_eq!(cancel_reply(&taken).unwrap().message, "취소 접수");
    assert!(matches!(cancel_reply(&json("{\"rt_cd\":\"7\"}")), Err(AppError::Order(_))));
}

#[test]
fn orders_as_they_are_sent() {
    assert_eq!(order_tr(Side::Buy), "TTTC0012U");
    assert_eq!(order_tr(Side::Sell), "TTTC0011U");
    let request = order_cash("123", "01", Side::Buy, "0193T0", 10, ORD_DVSN_IOC_LIMIT, 12_800, "SOR");
    assert_eq!(request.tr_id, "TTTC0012U");
    assert!(request.body.field_is("ORD_QTY", "10"));
    assert!(request.body.field_is("ORD_UNPR", "12800"));
    assert!(request.body.field_is("ORD_DVSN", "11"));
    assert!(request.body.field_is("EXCG_ID_DVSN_CD", "SOR"));
    let request = cancel_order("123", "01", "0000012345", "00950", "KRX");
    assert_eq!(request.tr_id, "TTTC0013U");
    assert!(request.body.field_is("ORGN_ODNO", "0000012345"));
    assert!(request.body.field_is("QTY_ALL_ORD_YN", "Y"));
    assert!(write_json(&request.body).contains("\"RVSE_CNCL_DVSN_CD\":\"02\""));
}

#[test]
fn a_broker_orders_for_its_account() {
    let broker = KisBroker::new(&connected()).unwrap();
    let request = broker.place_buy("0193T0", 1, 100, false);
    assert!(request.body.field_is("CANO", "12345678"));
    assert!(request.body.field_is("ORD_DVSN", "00"));
    let request = broker.place_sell_market("0193T0", 1);
    assert!(request.body.field_is("ORD_DVSN", "01"));
    assert!(request.body.field_is("ORD_UNPR", "0"));
    let request = broker.place_sell_limit("0193T0", 1, 100);
    assert_eq!(request.tr_id, "TTTC0011U");
    assert!(broker.cancel_order("1", "2").body.field_is("KRX_FWDG_ORD_ORGNO", "2"));
    assert_eq!(broker.cash_code(), "0193T0");
    let mut bare = connected();
    bare.trade_symbols.clear();
    assert_eq!(KisBroker::new(&bare).unwrap().cash_code(), "005930");
}

#[test]
fn basis_dates_are_eight_digits() {
    assert!(validate_basis_date("20260723").is_ok());
    assert!(validate_basis_date("2026-07-23").is_err());
    let told = holiday_params("2026");
    assert!(matches!(told, Err(AppError::Parse(text)) if text == "휴장일 기준일자는 YYYYMMDD 형식이어야 합니다: 2026"));
    assert_eq!(holiday_params("20260723").unwrap()[0], ("BASS_DT", "20260723".to_string()));
}

#[test]
fn open_days_are_read() {
    let response = json(
        "{\"output\":[{\"bass_dt\":\"20260723\",\"opnd_yn\":\"Y\"},{\"bass_dt\":\"20260724\",\"opnd_yn\":\"N\"},{\"bass_dt\":\"2026\",\"opnd_yn\":\"Y\"},{\"bass_dt\":\"20260725\",\"opnd_yn\":\"?\"}]}",
    );
    let days = parse_market_days(&response).unwrap();
    assert_eq!(days.len(), 2);
    assert_eq!(days[0].date, "20260723");
    assert!(days[0].is_open);
    assert!(!days[1].is_open);
}

#[test]
fn a_single_day_is_read_too() {
    let response = json("{\"rt_cd\":\"0\",\"output\":{\"bass_dt\":\"20260723\",\"opnd_yn\":\"Y\"}}");
    let days = parse_market_days(&response).unwrap();
    assert_eq!(days.len(), 1);
    assert_eq!(days[0].date, "20260723");
    assert!(days[0].is_open);
    assert_eq!(market_days(&response).unwrap().len(), 1);
}

#[test]
fn days_that_cannot_be_read_are_errors() {
    let shape = parse_market_days(&json("{\"output\":\"x\"}"));
    assert!(matches!(shape, Err(AppError::Parse(text)) if text == "국내휴장일조회 output 형식을 해석할 수 없습니다"));
    let none = parse_market_days(&json("{\"output\":[]}"));
    assert!(matches!(none, Err(AppError::Parse(text)) if text == "국내휴장일조회에서 유효한 개장일 데이터를 찾지 못했습니다"));
    assert!(matches!(market_days(&json("{\"output\":[]}")), Err(AppError::Kis(_))));
}

#[test]
fn holdings_and_cash() {
    let reply = json(
        "{\"rt_cd\":\"0\",\"output1\":[{\"pdno\":\"0193T0\",\"hldg_qty\":\"10\",\"pchs_avg_pric\":\"12800.1234\",\"evlu_pfls_amt\":\"-50\",\"evlu_pfls_rt\":\"-0.39\"},{\"pdno\":\"005930\",\"hldg_qty\":\"0\"}]}",
    );
    let held = positions(&reply).unwrap();
    assert_eq!(held.len(), 1);
    assert_eq!(held[0].avg_price, 128_001_234);
    assert_eq!(held[0].eval_pnl, -500_000);
    assert_eq!(held[0].pnl_rate, -390_000_000);
    assert!(positions(&json("{}")).is_err());
    let both = json("{\"rt_cd\":\"0\",\"output\":{\"nrcvb_buy_amt\":\"700\",\"ord_psbl_cash\":\"900\"}}");
    assert_eq!(orderable_cash(&both).unwrap(), 700);
    let one = json("{\"rt_cd\":\"0\",\"output\":{\"nrcvb_buy_amt\":\" \",\"ord_psbl_cash\":\"900\"}}");
    assert_eq!(orderable_cash(&one).unwrap(), 900);
    let qty = json("{\"rt_cd\":\"0\",\"output\":{\"nrcvb_buy_qty\":\"4179\"}}");
    assert_eq!(max_buy_qty(&qty).unwrap(), 4_179);
    assert_eq!(balance_params("1", "01").len(), 11);
    assert_eq!(cash_params("1", "01", "c")[4], ("ORD_DVSN", "01".to_string()));
    assert_eq!(qty_params("1", "01", "c", 500)[3], ("ORD_UNPR", "500".to_string()));
}

#[test]
fn build_subs_real_trade_codes_use_krx_tr() {
    let all = codes(&["000660", "005930", "0193T0"]);
    let trade = codes(&["0193T0"]);
    let subs = build_subs(&all, &trade);

    assert!(subs.contains(&("H0STCNT0".into(), "0193T0".into())));
    assert!(subs.contains(&("H0STASP0".into(), "0193T0".into())));
    assert!(!subs.iter().any(|(tr, c)| tr.starts_with("H0UN") && c == "0193T0"));
    assert!(subs.contains(&("H0UNCNT0".into(), "000660".into())));
    assert!(!subs.iter().any(|(tr, c)| tr == "H0STASP0" && c == "000660"));
    let price_subs = subs
        .iter()
        .filter(|(tr, c)| tr.ends_with("CNT0") && c == "0193T0")
        .count();
    assert_eq!(price_subs, 1);
}

#[test]
fn build_subs_trade_code_overlapping_chart_stays_krx() {
    let all = codes(&["0193T0"]);
    let trade = codes(&["0193T0"]);
    let subs = build_subs(&all, &trade);
    assert_eq!(
        subs,
        vec![
            ("H0STCNT0".to_string(), "0193T0".to_string()),
            ("H0STASP0".to_string(), "0193T0".to_string()),
        ]
    );
}

#[test]
fn a_feed_is_configured_by_the_settings() {
    let mut settings = connected();
    let broker = KisBroker::new(&settings).unwrap();
    let cfg = broker.feed_config("key".into());
    assert_eq!(cfg.url, REAL_WS);
    assert!(cfg.notice.is_none());
    assert!(cfg.subs.contains(&("H0STCNT0".into(), "000660".into())));
    assert!(cfg.subs.contains(&("H0UNCNT0".into(), "005930".into())));
    settings.hts_id = "user".into();
    let cfg = KisBroker::new(&settings).unwrap().feed_config("key".into());
    assert_eq!(cfg.notice, Some(("H0STCNI0".to_string(), "user".to_string())));
}
