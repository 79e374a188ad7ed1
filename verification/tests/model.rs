use easy_scalping::automation::oco::validate_decision;
use easy_scalping::automation::openai::{
    build_request_body, checked_api_key, elapsed_ms, http_status_error, measure,
    parse_response_value, read_decision, read_response, read_scenarios, request_id, validate_input,
    CandleInput, DecisionFailure, DecisionInput, IndicatorInput, MarketQuoteInput, Measure, OpenAiError, Sign,
    MODEL, SYSTEM_PROMPT,
};
use easy_scalping::json::{names_twice, read_json, write_json, Json};
use easy_scalping::types::{ProductKind, Quote};

fn json(text: &str) -> Json {
    read_json(text).unwrap()
}

fn at<'a>(value: &'a Json, path: &[&str]) -> &'a Json {
    let mut found = value;
    for name in path {
        found = found.get(name).unwrap();
    }
    found
}

fn won(n: i128) -> Measure {
    measure(n * 1_000_000_000)
}

fn sample_candle() -> CandleInput {
    CandleInput {
        time: 1_753_152_600,
        open: won(184_000),
        high: won(185_500),
        low: won(183_500),
        close: won(185_000),
        volume: won(123_456),
    }
}

fn sample_quote(code: &str, price: i128) -> MarketQuoteInput {
    MarketQuoteInput {
        code: code.into(),
        price: won(price),
        change_rate: measure(1_250_000_000),
        ask1: won(price + 5),
        bid1: won(price - 5),
        ask1_qty: 1_200,
        bid1_qty: 900,
        spread: won(10),
    }
}

fn sample_indicator(interval_minutes: u32) -> IndicatorInput {
    IndicatorInput {
        interval_minutes,
        current: sample_candle(),
        ma5: won(184_800),
        ma20: won(183_500),
        ma60: won(180_000),
        ma120: won(175_000),
    }
}

fn sample_input() -> DecisionInput {
    DecisionInput {
        as_of_kst: "2026-07-22T10:15:00+09:00".into(),
        underlying: sample_quote("000660", 185_000),
        leverage: sample_quote("0193T0", 15_000),
        inverse: sample_quote("0197X0", 8_000),
        ten_minute: sample_indicator(10),
        fifteen_minute: sample_indicator(15),
        chart_png: b"\x89PNG\r\n\x1a\nchart".to_vec(),
    }
}

#[test]
fn the_request_keeps_its_contract() {
    let body = build_request_body(&sample_input()).unwrap();

    assert!(body.field_is("model", MODEL));
    assert!(at(&body, &["reasoning"]).field_is("effort", "max"));
    assert!(at(&body, &["reasoning"]).field_is("context", "current_turn"));
    assert!(matches!(at(&body, &["store"]), Json::Bool(false)));
    assert!(at(&body, &["text"]).field_is("verbosity", "low"));
    assert_eq!(at(&body, &["max_output_tokens"]).as_u64(), Some(4_096));
    assert!(at(&body, &["text", "format"]).field_is("type", "json_schema"));
    assert!(matches!(at(&body, &["text", "format", "strict"]), Json::Bool(true)));
    let scenarios = at(&body, &["text", "format", "schema", "properties", "scenarios"]);
    assert_eq!(at(scenarios, &["maxItems"]).as_u64(), Some(2));
    assert!(matches!(at(scenarios, &["items", "additionalProperties"]), Json::Bool(false)));
    assert!(body.get("tools").is_none());
    assert!(body.get("previous_response_id").is_none());
    assert!(body.get("prompt_cache_options").is_none());

    let input = body.get_array("input").unwrap();
    assert_eq!(input.len(), 2);
    assert!(input[0].get_array("content").unwrap()[0].field_is("text", SYSTEM_PROMPT));
    let user_content = input[1].get_array("content").unwrap();
    assert_eq!(
        user_content.iter().filter(|part| part.field_is("type", "input_image")).count(),
        1
    );
    assert!(user_content[1].field_is("detail", "high"));
    let url = user_content[1].get_str("image_url").unwrap();
    assert_eq!(url, "data:image/png;base64,iVBORw0KGgpjaGFydA==");

    let dynamic = json(user_content[0].get_str("text").unwrap());
    assert!(at(&dynamic, &["quotes", "skHynix"]).field_is("code", "000660"));
    assert_eq!(
        at(&dynamic, &["indicators", "tenMinute", "intervalMinutes"]).as_u64(),
        Some(10)
    );
    assert!(write_json(&dynamic).contains("\"price\":185000.0"));
}

fn reply(id: &str, status: &str, output: &str, usage: &str) -> Json {
    json(&format!(
        "{{\"id\":\"{id}\",\"status\":\"{status}\",\"output\":{output},\"usage\":{usage}}}"
    ))
}

fn message(text: &str) -> String {
    let told = write_json(&Json::Text(text.into()));
    format!(
        "[{{\"type\":\"message\",\"status\":\"completed\",\"content\":[{{\"type\":\"output_text\",\"text\":{told}}}]}}]"
    )
}

const LITTLE: &str = "{\"input_tokens\":1,\"output_tokens\":1}";

#[test]
fn a_completed_reply_and_its_tokens_are_read() {
    let text = "{\"scenarios\":[{\"product\":\"LEVERAGE\",\"triggerPrice\":186000,\"targetReturnPct\":0.3},{\"product\":\"INVERSE\",\"triggerPrice\":183500,\"targetReturnPct\":0.2}]}";
    let usage = "{\"input_tokens\":1800,\"input_tokens_details\":{\"cached_tokens\":900,\"cache_write_tokens\":120},\"output_tokens\":540,\"output_tokens_details\":{\"reasoning_tokens\":500}}";
    let response = reply("resp_123", "completed", &message(text), usage);

    let result = parse_response_value(&response, "", 1_234).unwrap();
    assert_eq!(result.response_id, "resp_123");
    assert_eq!(result.latency_ms, 1_234);
    assert_eq!(result.decision.scenarios.len(), 2);
    assert_eq!(result.decision.scenarios[0].product, ProductKind::Leverage);
    assert_eq!(result.decision.scenarios[0].target_return_pct, Some(300_000_000));
    assert_eq!(result.decision.scenarios[1].product, ProductKind::Inverse);
    assert_eq!(result.usage.input_tokens, 1_800);
    assert_eq!(result.usage.cached_input_tokens, 900);
    assert_eq!(result.usage.cache_write_tokens, 120);
    assert_eq!(result.usage.reasoning_tokens, 500);
}

#[test]
fn no_scenario_and_one_are_decisions_too() {
    for (text, expected_count) in [
        ("{\"scenarios\":[]}", 0usize),
        (
            "{\"scenarios\":[{\"product\":\"LEVERAGE\",\"triggerPrice\":186000,\"targetReturnPct\":0.3}]}",
            1usize,
        ),
    ] {
        let response =
            reply(&format!("resp_{expected_count}"), "completed", &message(text), LITTLE);
        let result = parse_response_value(&response, "", 1).unwrap();
        assert_eq!(result.decision.scenarios.len(), expected_count);
        assert_eq!(result.usage.cache_write_tokens, 0);
    }
}

#[test]
fn a_scenario_that_makes_no_sense_is_left_out_after_reading() {
    let text = "{\"scenarios\":[{\"product\":\"LEVERAGE\",\"triggerPrice\":0,\"targetReturnPct\":0.25},{\"product\":\"INVERSE\",\"triggerPrice\":183500,\"targetReturnPct\":0.2}]}";
    let response = reply("resp_individual_invalid", "completed", &message(text), LITTLE);

    let parsed = parse_response_value(&response, "", 1).unwrap();
    let validated = validate_decision(185_000, &parsed.decision.scenarios).unwrap();

    assert_eq!(validated.scenarios.len(), 1);
    assert_eq!(validated.scenarios[0].product, ProductKind::Inverse);
    assert_eq!(validated.rejected.len(), 1);
    assert_eq!(validated.rejected[0].product, ProductKind::Leverage);
}

#[test]
fn a_refusal_and_a_reply_cut_short_are_no_decisions() {
    let output = "[{\"type\":\"message\",\"status\":\"completed\",\"content\":[{\"type\":\"refusal\",\"refusal\":\"처리할 수 없음\"}]}]";
    let usage = "{\"input_tokens\":101,\"input_tokens_details\":{\"cached_tokens\":50,\"cache_write_tokens\":7},\"output_tokens\":21,\"output_tokens_details\":{\"reasoning_tokens\":20}}";
    let refusal = reply("resp_refusal", "completed", output, usage);
    let failure = parse_response_value(&refusal, "", 10).unwrap_err();
    assert!(matches!(failure.error, OpenAiError::Refused(_)));
    assert_eq!(failure.response_id.as_deref(), Some("resp_refusal"));
    assert_eq!(failure.latency_ms, 10);
    assert_eq!(failure.usage.input_tokens, 101);
    assert_eq!(failure.usage.cached_input_tokens, 50);
    assert_eq!(failure.usage.cache_write_tokens, 7);
    assert_eq!(failure.usage.output_tokens, 21);
    assert_eq!(failure.usage.reasoning_tokens, 20);

    let incomplete = json(
        "{\"id\":\"resp_incomplete\",\"status\":\"incomplete\",\"incomplete_details\":{\"reason\":\"max_output_tokens\"},\"output\":[],\"usage\":{\"input_tokens\":200,\"input_tokens_details\":{\"cached_tokens\":150,\"cache_write_tokens\":11},\"output_tokens\":40,\"output_tokens_details\":{\"reasoning_tokens\":35}}}",
    );
    let failure = parse_response_value(&incomplete, "", 11).unwrap_err();
    assert!(matches!(
        failure.error,
        OpenAiError::Incomplete(reason) if reason == "max_output_tokens"
    ));
    assert_eq!(failure.response_id.as_deref(), Some("resp_incomplete"));
    assert_eq!(failure.latency_ms, 11);
    assert_eq!(failure.usage.input_tokens, 200);
    assert_eq!(failure.usage.cached_input_tokens, 150);
    assert_eq!(failure.usage.cache_write_tokens, 11);
    assert_eq!(failure.usage.output_tokens, 40);
    assert_eq!(failure.usage.reasoning_tokens, 35);
}

#[test]
fn an_empty_reply_and_fields_beyond_the_schema_are_refused() {
    let empty = reply("resp_empty", "completed", "[]", LITTLE);
    assert!(matches!(
        parse_response_value(&empty, "", 10).unwrap_err().error,
        OpenAiError::InvalidResponse(_)
    ));

    let extra = reply(
        "resp_extra",
        "completed",
        &message("{\"scenarios\":[],\"explanation\":\"매수\"}"),
        LITTLE,
    );
    assert!(matches!(
        parse_response_value(&extra, "", 10).unwrap_err().error,
        OpenAiError::InvalidResponse(_)
    ));
}

#[test]
fn an_error_reply_still_tells_its_tokens() {
    let value = json(
        "{\"id\":\"resp_rate_limited\",\"error\":{\"message\":\"rate limit\"},\"usage\":{\"input_tokens\":321,\"input_tokens_details\":{\"cached_tokens\":300,\"cache_write_tokens\":13},\"output_tokens\":9,\"output_tokens_details\":{\"reasoning_tokens\":8}}}",
    );
    let failure = DecisionFailure::after_request(
        OpenAiError::HttpStatus { status: 429, message: "rate limit".into() },
        Some(&value),
        987,
        None,
    );

    assert!(matches!(failure.error, OpenAiError::HttpStatus { status: 429, .. }));
    assert_eq!(failure.response_id.as_deref(), Some("resp_rate_limited"));
    assert_eq!(failure.usage.input_tokens, 321);
    assert_eq!(failure.usage.cached_input_tokens, 300);
    assert_eq!(failure.usage.cache_write_tokens, 13);
    assert_eq!(failure.usage.output_tokens, 9);
    assert_eq!(failure.usage.reasoning_tokens, 8);
    assert_eq!(failure.latency_ms, 987);
}

#[test]
fn model_replies_are_read_by_their_status() {
    let body = "{\"id\":\"r\",\"error\":{\"message\":\"rate limit\"}}";
    let failure = read_response(429, Some("header".into()), body, "", 5).unwrap_err();
    assert!(matches!(
        &failure.error,
        OpenAiError::HttpStatus { status: 429, message } if message == "rate limit"
    ));
    assert_eq!(failure.response_id.as_deref(), Some("r"));
    let failure = read_response(500, Some("header".into()), "<html>", "", 5).unwrap_err();
    assert!(matches!(failure.error, OpenAiError::HttpStatus { status: 500, .. }));
    assert_eq!(failure.response_id.as_deref(), Some("header"));
    let failure = read_response(200, None, "<html>", "", 5).unwrap_err();
    assert!(matches!(
        &failure.error,
        OpenAiError::InvalidResponse(told)
            if told == "응답 JSON 파싱 실패: expected value at line 1 column 1"
    ));
    let told = http_status_error(404, None, "not found");
    assert!(matches!(told, OpenAiError::HttpStatus { status: 404, message } if message == "not found"));
    let fine = message("{\"scenarios\":[]}");
    let text = format!(
        "{{\"id\":\"r\",\"status\":\"completed\",\"output\":{fine},\"usage\":{LITTLE}}}"
    );
    assert_eq!(read_response(200, None, &text, "", 5).unwrap().response_id, "r");
}

#[test]
fn a_request_needs_a_key_and_usable_input() {
    assert!(matches!(checked_api_key("  ".into()), Err(OpenAiError::MissingApiKey)));
    assert!(checked_api_key("key".into()).is_ok());
    assert!(validate_input(&sample_input()).is_ok());
    let mut input = sample_input();
    input.chart_png = vec![1, 2, 3];
    assert!(matches!(validate_input(&input), Err(OpenAiError::InvalidInput(_))));
    let mut input = sample_input();
    input.leverage.ask1 = won(0);
    assert!(matches!(validate_input(&input), Err(OpenAiError::InvalidInput(_))));
    let mut input = sample_input();
    input.underlying.price.sign = Sign::NotFinite;
    assert!(matches!(build_request_body(&input), Err(OpenAiError::InvalidInput(_))));
    let mut input = sample_input();
    input.ten_minute.interval_minutes = 15;
    assert!(matches!(validate_input(&input), Err(OpenAiError::InvalidInput(_))));
    assert_eq!(elapsed_ms(1_999_999), 1);
    assert_eq!(elapsed_ms(u128::MAX), u64::MAX);
}

#[test]
fn quotes_are_told_as_numbers_with_a_point() {
    let quote = Quote {
        code: "0193T0".into(),
        price: 12_800,
        change_rate: -1_190_000_000,
        ask1: 12_805,
        bid1: 12_795,
        ask1_qty: 7,
        bid1_qty: 9,
        volume: 0,
        trade_sequence: 0,
        received_at_micros: 0,
        trade_ts: 0,
        book_ts: 0,
    };
    let input = MarketQuoteInput::from_quote(&quote);
    assert_eq!(input.price.text, "12800.0");
    assert_eq!(input.change_rate.text, "-1.19");
    assert_eq!(input.change_rate.sign, Sign::Negative);
    assert_eq!(input.spread.text, "10.0");
    assert_eq!(measure(0).sign, Sign::Zero);
}

#[test]
fn an_identifier_of_white_space_is_none() {
    assert_eq!(request_id(Some("r-1".into())), Some("r-1".to_owned()));
    assert_eq!(request_id(Some(" \t".into())), None);
    assert_eq!(request_id(None), None);
}

#[test]
fn targets_keep_off_their_step_when_digits_are_cut() {
    let target = |text: &str| {
        let json = format!(
            "{{\"scenarios\":[{{\"product\":\"LEVERAGE\",\"triggerPrice\":186000,\"targetReturnPct\":{text}}}]}}"
        );
        let scenarios = read_decision(&read_json(&json).unwrap()).unwrap();
        validate_decision(185_000, &scenarios).unwrap().scenarios.len()
    };
    assert_eq!(target("2.0"), 1);
    assert_eq!(target("2.0000000001"), 0);
    assert_eq!(target("2e0"), 1);
    assert_eq!(target("3e-1"), 1);
    assert_eq!(target("0.30000000000000004"), 1);
    assert_eq!(target("0.3000000019"), 0);
    assert_eq!(target("0.19999999999"), 0);
    assert_eq!(target("1e300"), 0);
}

#[test]
fn what_is_told_of_an_output_is_passed_on() {
    let told = "missing field `scenarios` at line 1 column 2";
    let none = reply("resp_none", "completed", &message("{}"), LITTLE);
    assert!(matches!(
        parse_response_value(&none, told, 1).unwrap_err().error,
        OpenAiError::InvalidResponse(text)
            if text == "결정 JSON 계약 위반: missing field `scenarios` at line 1 column 2"
    ));
    let fine = reply("resp_fine", "completed", &message("{\"scenarios\":[]}"), LITTLE);
    assert!(parse_response_value(&fine, told, 1).is_ok());
}

#[test]
fn an_output_that_names_a_member_twice_is_no_decision() {
    let once = "{\"scenarios\":[{\"product\":\"LEVERAGE\",\"triggerPrice\":1,\"targetReturnPct\":1}]}";
    assert_eq!(read_scenarios(once).unwrap().len(), 1);
    let two = "{\"scenarios\":[[\"LEVERAGE\",1,1],{\"product\":\"INVERSE\",\"triggerPrice\":1,\"targetReturnPct\":1}]}";
    assert_eq!(read_scenarios(two).unwrap().len(), 2);
    for text in [
        "{\"scenarios\":[],\"scenarios\":[]}",
        "{\"scenarios\":[],\"sc\\u0065narios\":[]}",
        "{\"scenarios\":[{\"product\":\"LEVERAGE\",\"triggerPrice\":1,\"triggerPrice\":1,\"targetReturnPct\":1}]}",
        "{\"scenarios\":[{\"product\":{\"LEVERAGE\":null,\"LEVERAGE\":null},\"triggerPrice\":1,\"targetReturnPct\":1}]}",
        "{\"scenarios\":[]",
    ] {
        assert!(read_scenarios(text).is_none(), "{text}");
    }
    assert!(!names_twice("{\"a\":{\"b\":1},\"b\":{\"a\":\"\\\"a\\\":\"}}"));
    assert!(names_twice("[{\"a\":1},{\"b\":[],\"b\":[]}]"));
}
