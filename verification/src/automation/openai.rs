//! The model's side of a decision: the request that asks for it, and what a reply means.
//!
//! Sending the request belongs to the caller. When to ask, and whether a decision makes sense at the
//! prices of the moment, belongs to the runtime and to the OCO machine.

use base64::Engine;
use vstd::prelude::*;

use crate::amounts::{amount_of, decimals_are_read, figures, read_amount, ten};
use crate::json::{
    bool_member, flag_of, json_of, json_read, lemma_list_says, lemma_member_at, lemma_object_says,
    list, member, members_of, names_twice, number_member, number_of, object, read_json, repeats_a_name,
    text_member, text_of, text_value, write_json, written, Json, JsonView, Member,
};
use crate::kis::numbers::{plain_text, write_plain};
use crate::tables::rows;
use crate::text::{
    blank, decimal, digits, is_blank, joined, number, opt, same, signed_decimal, signed_digits,
    take_chars, trim, trimmed,
};
use crate::types::{ModelDecision, ModelScenario, ProductKind, Quote};

verus! {

pub const MODEL: &'static str = "gpt-5.6-sol";

pub const PROMPT_VERSION: &'static str = "sk-hynix-oco-v2";

pub const RESPONSES_URL: &'static str = "https://api.openai.com/v1/responses";

/// The fixed start of every request. It holds nothing that changes, so that it can be cached.
pub const SYSTEM_PROMPT: &'static str = "당신은 SK하이닉스(000660) 연동 레버리지·곱버스 ETF 스캘핑 신호기다. 매 호출은 독립적이며 제공된 현재 시세와 10·15분봉만 사용한다. 과거 결정·누적손익·연속손실은 고려하지 마라. 횡보·추세 환경에서 명확한 단기 우위가 있는 조건만 0~2개 시나리오로 제시하고, 근거가 약한 반대 방향을 억지로 만들지 마라. LEVERAGE는 현재 본주보다 높은 triggerPrice의 상향 돌파, INVERSE는 낮은 triggerPrice의 하향 이탈 조건이다. triggerPrice에는 차트상 기술적 기준가만 제시하고 가짜 돌파 방지 보정값을 미리 반영하지 마라. 실행기는 LEVERAGE는 위로, INVERSE는 아래로 0.1% 보정해 유효 호가로 정규화한 뒤 먼저 3초·3틱 확인된 하나만 실행한다. 양방향이 모두 타당하면 둘 다 제시한다. targetReturnPct는 선택 ETF의 실제 체결평단 대비 단순 목표수익률로 0.2~2.0%, 0.1% 단위다. 기본 후보는 0.2/0.3%이며 명확한 여지가 있을 때만 높여라. 약 ±2배 상품의 특성과 각 ETF의 직접 시세·호가를 반영하되 프로그램은 목표를 다시 2배 환산하지 않는다. 실행기는 -0.3% 손절, 첫 체결 10분 후 청산, 15:15 청산을 별도로 수행한다. 지정 JSON만 반환하라.";

pub const REQUEST_TIMEOUT_SECONDS: u64 = 240;

/// Longest part of a reply's body that an error message quotes.
pub const QUOTED_CHARS: usize = 500;

#[derive(Debug, Clone, Copy, PartialEq, Eq, Structural)]
pub struct TokenUsage {
    pub input_tokens: u64,
    pub cached_input_tokens: u64,
    pub cache_write_tokens: u64,
    pub output_tokens: u64,
    pub reasoning_tokens: u64,
}

impl TokenUsage {
    pub open spec fn none() -> TokenUsage {
        TokenUsage {
            input_tokens: 0,
            cached_input_tokens: 0,
            cache_write_tokens: 0,
            output_tokens: 0,
            reasoning_tokens: 0,
        }
    }
}

impl Default for TokenUsage {
    fn default() -> (usage: Self)
        ensures
            usage == TokenUsage::none(),
    {
        TokenUsage {
            input_tokens: 0,
            cached_input_tokens: 0,
            cache_write_tokens: 0,
            output_tokens: 0,
            reasoning_tokens: 0,
        }
    }
}

/// A decision that a reply holds.
#[derive(Debug)]
pub struct DecisionResult {
    pub response_id: String,
    pub decision: ModelDecision,
    pub usage: TokenUsage,
    pub latency_ms: u64,
}

#[derive(Debug, PartialEq, Eq)]
pub enum OpenAiError {
    MissingApiKey,
    InvalidInput(String),
    /// The request did not get through, for the given reason.
    Http(String),
    HttpStatus { status: u16, message: String },
    Api(String),
    Refused(String),
    Incomplete(String),
    InvalidResponse(String),
}

/// What an error says.
pub enum OpenAiFault {
    MissingApiKey,
    InvalidInput(Seq<char>),
    Http(Seq<char>),
    HttpStatus { status: u16, message: Seq<char> },
    Api(Seq<char>),
    Refused(Seq<char>),
    Incomplete(Seq<char>),
    InvalidResponse(Seq<char>),
}

impl View for OpenAiError {
    type V = OpenAiFault;

    open spec fn view(&self) -> OpenAiFault {
        match self {
            OpenAiError::MissingApiKey => OpenAiFault::MissingApiKey,
            OpenAiError::InvalidInput(m) => OpenAiFault::InvalidInput(m@),
            OpenAiError::Http(m) => OpenAiFault::Http(m@),
            OpenAiError::HttpStatus { status, message } => OpenAiFault::HttpStatus {
                status: *status,
                message: message@,
            },
            OpenAiError::Api(m) => OpenAiFault::Api(m@),
            OpenAiError::Refused(m) => OpenAiFault::Refused(m@),
            OpenAiError::Incomplete(m) => OpenAiFault::Incomplete(m@),
            OpenAiError::InvalidResponse(m) => OpenAiFault::InvalidResponse(m@),
        }
    }
}

impl OpenAiError {
    pub open spec fn shown(self) -> Seq<char> {
        match self {
            OpenAiError::MissingApiKey => "OpenAI API 키가 비어 있습니다"@,
            OpenAiError::InvalidInput(m) => "OpenAI 판단 입력이 올바르지 않습니다: "@ + m@,
            OpenAiError::Http(m) => "OpenAI 요청 오류: "@ + m@,
            OpenAiError::HttpStatus { status, message } => "OpenAI API HTTP 오류("@ + digits(
                status as nat,
            ) + "): "@ + message@,
            OpenAiError::Api(m) => "OpenAI API 오류: "@ + m@,
            OpenAiError::Refused(m) => "OpenAI가 판단을 거부했습니다: "@ + m@,
            OpenAiError::Incomplete(m) => "OpenAI 응답이 완료되지 않았습니다: "@ + m@,
            OpenAiError::InvalidResponse(m) => "OpenAI 응답 형식이 올바르지 않습니다: "@ + m@,
        }
    }

    /// The error as it is shown.
    pub fn text(&self) -> (text: String)
        ensures
            text@ == self.shown(),
    {
        match self {
            OpenAiError::MissingApiKey => "OpenAI API 키가 비어 있습니다".to_owned(),
            OpenAiError::InvalidInput(m) => joined(
                "OpenAI 판단 입력이 올바르지 않습니다: ",
                m.as_str(),
            ),
            OpenAiError::Http(m) => joined("OpenAI 요청 오류: ", m.as_str()),
            OpenAiError::HttpStatus { status, message } => {
                let mut text = joined(
                    "OpenAI API HTTP 오류(",
                    decimal(*status as u64).as_str(),
                );
                text.append("): ");
                text.append(message.as_str());
                text
            },
            OpenAiError::Api(m) => joined("OpenAI API 오류: ", m.as_str()),
            OpenAiError::Refused(m) => joined("OpenAI가 판단을 거부했습니다: ", m.as_str()),
            OpenAiError::Incomplete(m) => joined(
                "OpenAI 응답이 완료되지 않았습니다: ",
                m.as_str(),
            ),
            OpenAiError::InvalidResponse(m) => joined(
                "OpenAI 응답 형식이 올바르지 않습니다: ",
                m.as_str(),
            ),
        }
    }
}

/// A failed request, with what of its cost the reply still told.
#[derive(Debug)]
pub struct DecisionFailure {
    pub error: OpenAiError,
    pub response_id: Option<String>,
    pub usage: TokenUsage,
    pub latency_ms: u64,
}

/// A reply's identifier, where it is more than white space.
pub open spec fn reply_id(value: JsonView) -> Option<Seq<char>> {
    match value.text_field("id"@) {
        Some(id) => if blank(id) {
            None
        } else {
            Some(id)
        },
        None => None,
    }
}

fn response_id_from_value(value: &Json) -> (id: Option<String>)
    ensures
        opt(id) == reply_id(value@),
{
    match value.get_str("id") {
        Some(id) => if is_blank(id) {
            None
        } else {
            Some(id.to_owned())
        },
        None => None,
    }
}

/// A count, or zero where there is none.
pub open spec fn count_or_zero(value: Option<JsonView>) -> u64 {
    match value {
        Some(v) => match v.unsigned() {
            Some(n) => n,
            None => 0,
        },
        None => 0,
    }
}

fn unsigned_or_zero(value: Option<&Json>) -> (n: u64)
    ensures
        n == count_or_zero(
            match value {
                Some(v) => Some(v@),
                None => None,
            },
        ),
{
    match value {
        Some(v) => match v.as_u64() {
            Some(n) => n,
            None => 0,
        },
        None => 0,
    }
}

/// The counts that a reply tells, each by itself: what is missing or malformed counts as zero.
pub open spec fn salvaged_usage(value: JsonView) -> TokenUsage {
    match value.field("usage"@) {
        Some(usage) => TokenUsage {
            input_tokens: count_or_zero(usage.field("input_tokens"@)),
            cached_input_tokens: count_or_zero(
                usage.nested("input_tokens_details"@, "cached_tokens"@),
            ),
            cache_write_tokens: count_or_zero(
                usage.nested("input_tokens_details"@, "cache_write_tokens"@),
            ),
            output_tokens: count_or_zero(usage.field("output_tokens"@)),
            reasoning_tokens: count_or_zero(
                usage.nested("output_tokens_details"@, "reasoning_tokens"@),
            ),
        },
        None => TokenUsage::none(),
    }
}

/// What can be told of the cost of a reply, whatever else is wrong with it.
pub fn usage_from_value(value: &Json) -> (usage: TokenUsage)
    ensures
        usage == salvaged_usage(value@),
{
    match value.get("usage") {
        None => TokenUsage::default(),
        Some(usage) => TokenUsage {
            input_tokens: unsigned_or_zero(usage.get("input_tokens")),
            cached_input_tokens: unsigned_or_zero(
                usage.get_nested("input_tokens_details", "cached_tokens"),
            ),
            cache_write_tokens: unsigned_or_zero(
                usage.get_nested("input_tokens_details", "cache_write_tokens"),
            ),
            output_tokens: unsigned_or_zero(usage.get("output_tokens")),
            reasoning_tokens: unsigned_or_zero(
                usage.get_nested("output_tokens_details", "reasoning_tokens"),
            ),
        },
    }
}

impl DecisionFailure {
    /// A failure before anything was sent: it cost nothing.
    pub fn local(error: OpenAiError) -> (failure: Self)
        ensures
            failure.error == error,
            failure.response_id is None,
            failure.usage == TokenUsage::none(),
            failure.latency_ms == 0,
    {
        DecisionFailure {
            error,
            response_id: None,
            usage: TokenUsage::default(),
            latency_ms: 0,
        }
    }

    /// A failure after sending. The reply's own identifier comes before the fallback.
    pub fn after_request(
        error: OpenAiError,
        value: Option<&Json>,
        latency_ms: u64,
        fallback_response_id: Option<String>,
    ) -> (failure: Self)
        ensures
            failure.error == error,
            failure.latency_ms == latency_ms,
            failure.usage == (match value {
                Some(v) => salvaged_usage(v@),
                None => TokenUsage::none(),
            }),
            if value is Some && reply_id(value->0@) is Some {
                opt(failure.response_id) == reply_id(value->0@)
            } else {
                failure.response_id == fallback_response_id
            },
    {
        let mut response_id: Option<String> = None;
        let mut usage = TokenUsage::default();
        if let Some(v) = value {
            response_id = response_id_from_value(v);
            usage = usage_from_value(v);
        }
        if response_id.is_none() {
            response_id = fallback_response_id;
        }
        DecisionFailure { error, response_id, usage, latency_ms }
    }
}

/// Why a part refuses, by its own words.
pub open spec fn refusal_text(value: JsonView) -> Seq<char> {
    let said = match value.field("refusal"@) {
        Some(v) => Some(v),
        None => value.field("text"@),
    };
    match said {
        Some(v) => match v.text() {
            Some(t) => t,
            None => "사유 없음"@,
        },
        None => "사유 없음"@,
    }
}

fn refusal_message(value: &Json) -> (text: String)
    ensures
        text@ == refusal_text(value@),
{
    let said = match value.get("refusal") {
        Some(v) => Some(v),
        None => value.get("text"),
    };
    match said {
        Some(v) => match v.as_str() {
            Some(t) => t.to_owned(),
            None => "사유 없음".to_owned(),
        },
        None => "사유 없음".to_owned(),
    }
}

pub open spec fn api_error_text(value: JsonView) -> Seq<char> {
    match value.text_field("message"@) {
        Some(t) => t,
        None => "알 수 없는 오류"@,
    }
}

fn api_error_message(value: &Json) -> (text: String)
    ensures
        text@ == api_error_text(value@),
{
    match value.get_str("message") {
        Some(t) => t.to_owned(),
        None => "알 수 없는 오류".to_owned(),
    }
}

/// What a reply with a failing status says: its error's message, or its own, or its body.
pub open spec fn status_text(value: Option<JsonView>, body: Seq<char>) -> Seq<char> {
    let compact = if trimmed(body).len() <= QUOTED_CHARS {
        trimmed(body)
    } else {
        trimmed(body).take(QUOTED_CHARS as int)
    };
    let quoted = if compact.len() == 0 {
        "응답 본문 없음"@
    } else {
        compact
    };
    match value {
        Some(v) => match v.field("error"@) {
            Some(e) => api_error_text(e),
            None => match v.text_field("message"@) {
                Some(t) => t,
                None => quoted,
            },
        },
        None => quoted,
    }
}

/// The error of a reply with a failing status, given what its body reads as.
pub fn http_status_error(status: u16, value: Option<&Json>, body: &str) -> (error: OpenAiError)
    ensures
        error@ == (OpenAiFault::HttpStatus {
            status,
            message: status_text(
                match value {
                    Some(v) => Some(v@),
                    None => None,
                },
                body@,
            ),
        }),
{
    if let Some(v) = value {
        if let Some(e) = v.get("error") {
            return OpenAiError::HttpStatus { status, message: api_error_message(e) };
        }
        if let Some(t) = v.get_str("message") {
            return OpenAiError::HttpStatus { status, message: t.to_owned() };
        }
    }
    let mut compact = take_chars(trim(body).as_str(), QUOTED_CHARS);
    if compact.unicode_len() == 0 {
        compact = "응답 본문 없음".to_owned();
    }
    OpenAiError::HttpStatus { status, message: compact }
}

/// The output text of one part of a message.
pub open spec fn part_text(part: JsonView) -> Result<Seq<char>, OpenAiFault> {
    if part.text_field("type"@) == Some("refusal"@) {
        Err(OpenAiFault::Refused(refusal_text(part)))
    } else if part.text_field("type"@) == Some("output_text"@) {
        match part.text_field("text"@) {
            Some(t) => Ok(t),
            None => Err(OpenAiFault::InvalidResponse("output_text.text 누락"@)),
        }
    } else {
        Ok(Seq::empty())
    }
}

/// What two pieces of output come to; the first fault decides.
pub open spec fn then_text(
    first: Result<Seq<char>, OpenAiFault>,
    second: Result<Seq<char>, OpenAiFault>,
) -> Result<Seq<char>, OpenAiFault> {
    match (first, second) {
        (Err(fault), _) => Err(fault),
        (Ok(_), Err(fault)) => Err(fault),
        (Ok(a), Ok(b)) => Ok(a + b),
    }
}

/// The output texts of the parts of a message, one after the other.
pub open spec fn parts_text(parts: Seq<JsonView>) -> Result<Seq<char>, OpenAiFault>
    decreases parts.len(),
{
    if parts.len() == 0 {
        Ok(Seq::empty())
    } else {
        then_text(parts_text(parts.drop_last()), part_text(parts.last()))
    }
}

/// The output text of one item of a reply.
pub open spec fn item_text(item: JsonView) -> Result<Seq<char>, OpenAiFault> {
    let own = if item.text_field("type"@) == Some("output_text"@) {
        match item.text_field("text"@) {
            Some(t) => t,
            None => Seq::empty(),
        }
    } else {
        Seq::empty()
    };
    if item.text_field("type"@) == Some("refusal"@) {
        Err(OpenAiFault::Refused(refusal_text(item)))
    } else if item.text_field("status"@) == Some("incomplete"@) {
        Err(OpenAiFault::Incomplete("출력 메시지 잘림"@))
    } else {
        match item.list_field("content"@) {
            Some(parts) => then_text(Ok(own), parts_text(parts)),
            None => Ok(own),
        }
    }
}

/// The output text of a reply, item by item.
pub open spec fn items_text(items: Seq<JsonView>) -> Result<Seq<char>, OpenAiFault>
    decreases items.len(),
{
    if items.len() == 0 {
        Ok(Seq::empty())
    } else {
        then_text(items_text(items.drop_last()), item_text(items.last()))
    }
}

/// The results agree: the same text, or errors that say the same.
pub open spec fn gives(
    result: Result<String, OpenAiError>,
    expected: Result<Seq<char>, OpenAiFault>,
) -> bool {
    match (result, expected) {
        (Ok(text), Ok(t)) => text@ == t,
        (Err(error), Err(fault)) => error@ == fault,
        _ => false,
    }
}

fn read_part(part: &Json) -> (result: Result<String, OpenAiError>)
    ensures
        gives(result, part_text(part@)),
{
    if part.field_is("type", "refusal") {
        return Err(OpenAiError::Refused(refusal_message(part)));
    }
    if part.field_is("type", "output_text") {
        return match part.get_str("text") {
            Some(t) => Ok(t.to_owned()),
            None => Err(OpenAiError::InvalidResponse("output_text.text 누락".to_owned())),
        };
    }
    Ok(String::new())
}

proof fn lemma_fault_stays(parts: Seq<JsonView>, i: int)
    requires
        0 <= i <= parts.len(),
        parts_text(parts.take(i)) is Err,
    ensures
        parts_text(parts) == parts_text(parts.take(i)),
    decreases parts.len() - i,
{
    if i < parts.len() {
        assert(parts.take(i + 1).drop_last() =~= parts.take(i));
        lemma_fault_stays(parts, i + 1);
    } else {
        assert(parts.take(i) =~= parts);
    }
}

proof fn lemma_item_fault_stays(items: Seq<JsonView>, i: int)
    requires
        0 <= i <= items.len(),
        items_text(items.take(i)) is Err,
    ensures
        items_text(items) == items_text(items.take(i)),
    decreases items.len() - i,
{
    if i < items.len() {
        assert(items.take(i + 1).drop_last() =~= items.take(i));
        lemma_item_fault_stays(items, i + 1);
    } else {
        assert(items.take(i) =~= items);
    }
}

fn read_parts(parts: &Vec<Json>) -> (result: Result<String, OpenAiError>)
    ensures
        gives(result, parts_text(rows(parts@))),
{
    let mut text = String::new();
    let mut i: usize = 0;
    assert(rows(parts@).take(0) =~= Seq::empty());
    while i < parts.len()
        invariant
            i <= parts@.len(),
            parts_text(rows(parts@).take(i as int)) == Ok::<Seq<char>, OpenAiFault>(text@),
        decreases parts@.len() - i,
    {
        assert(rows(parts@).take(i + 1).drop_last() =~= rows(parts@).take(i as int));
        assert(rows(parts@)[i as int] == parts@[i as int]@);
        match read_part(&parts[i]) {
            Err(error) => {
                proof {
                    lemma_fault_stays(rows(parts@), i + 1);
                }
                return Err(error);
            },
            Ok(t) => {
                text.append(t.as_str());
            },
        }
        i += 1;
    }
    assert(rows(parts@).take(i as int) =~= rows(parts@));
    Ok(text)
}

fn read_item(item: &Json) -> (result: Result<String, OpenAiError>)
    ensures
        gives(result, item_text(item@)),
{
    if item.field_is("type", "refusal") {
        return Err(OpenAiError::Refused(refusal_message(item)));
    }
    if item.field_is("status", "incomplete") {
        return Err(OpenAiError::Incomplete("출력 메시지 잘림".to_owned()));
    }
    let mut text = String::new();
    if item.field_is("type", "output_text") {
        if let Some(t) = item.get_str("text") {
            text = t.to_owned();
        }
    }
    match item.get_array("content") {
        None => Ok(text),
        Some(parts) => match read_parts(parts) {
            Err(error) => Err(error),
            Ok(t) => {
                text.append(t.as_str());
                Ok(text)
            },
        },
    }
}

fn read_items(items: &Vec<Json>) -> (result: Result<String, OpenAiError>)
    ensures
        gives(result, items_text(rows(items@))),
{
    let mut text = String::new();
    let mut i: usize = 0;
    assert(rows(items@).take(0) =~= Seq::empty());
    while i < items.len()
        invariant
            i <= items@.len(),
            items_text(rows(items@).take(i as int)) == Ok::<Seq<char>, OpenAiFault>(text@),
        decreases items@.len() - i,
    {
        assert(rows(items@).take(i + 1).drop_last() =~= rows(items@).take(i as int));
        assert(rows(items@)[i as int] == items@[i as int]@);
        match read_item(&items[i]) {
            Err(error) => {
                proof {
                    lemma_item_fault_stays(rows(items@), i + 1);
                }
                return Err(error);
            },
            Ok(t) => {
                text.append(t.as_str());
            },
        }
        i += 1;
    }
    assert(rows(items@).take(i as int) =~= rows(items@));
    Ok(text)
}

/// The name of a variant: a text, or an object with that one name and no content.
pub open spec fn variant_name(value: JsonView) -> Option<Seq<char>> {
    match value {
        JsonView::Text(text) => Some(text),
        JsonView::Object(members) => if members.len() == 1 && members[0].1 is Null {
            Some(members[0].0)
        } else {
            None
        },
        _ => None,
    }
}

pub open spec fn product_of(value: JsonView) -> Option<ProductKind> {
    if variant_name(value) == Some("LEVERAGE"@) {
        Some(ProductKind::Leverage)
    } else if variant_name(value) == Some("INVERSE"@) {
        Some(ProductKind::Inverse)
    } else {
        None
    }
}

fn read_product(value: &Json) -> (product: Option<ProductKind>)
    ensures
        product == product_of(value@),
{
    let name: &str = match value {
        Json::Text(text) => text.as_str(),
        Json::Object(members) => {
            proof {
                lemma_object_says(*members);
            }
            if members.len() == 1 && members[0].value.is_null() {
                members[0].name.as_str()
            } else {
                return None;
            }
        },
        _ => return None,
    };
    if same(name, "LEVERAGE") {
        Some(ProductKind::Leverage)
    } else if same(name, "INVERSE") {
        Some(ProductKind::Inverse)
    } else {
        None
    }
}

/// The three values of a scenario: by name, with no other name, or in order.
pub open spec fn scenario_parts(value: JsonView) -> Option<(JsonView, JsonView, JsonView)> {
    match value {
        JsonView::Object(members) => if members.len() == 3 && value.field("product"@) is Some
            && value.field("triggerPrice"@) is Some && value.field("targetReturnPct"@) is Some {
            Some(
                (
                    value.field("product"@)->0,
                    value.field("triggerPrice"@)->0,
                    value.field("targetReturnPct"@)->0,
                ),
            )
        } else {
            None
        },
        JsonView::List(items) => if items.len() == 3 {
            Some((items[0], items[1], items[2]))
        } else {
            None
        },
        _ => None,
    }
}

/// A target, in billionths of a percent, up to 64 bits. What a billionth cannot hold takes it away
/// from the nearest tenth of a percent, so that a target that is off its step or its range stays so.
pub open spec fn target_of(text: Seq<char>) -> Option<i64> {
    match amount_of(text) {
        Some(amount) => {
            let n = amount.value() + if !amount.exact && !amount.negative && amount.billionths
                % 100_000_000 < 50_000_000 {
                1int
            } else {
                0
            };
            Some(
                if n > i64::MAX {
                    i64::MAX
                } else if n < i64::MIN {
                    i64::MIN
                } else {
                    n as i64
                },
            )
        },
        None => None,
    }
}

fn read_target(text: &str) -> (target: Option<i64>)
    ensures
        target == target_of(text@),
{
    match read_amount(text) {
        Some(amount) => {
            let mut n: i128 = amount.billionths as i128;
            if amount.negative {
                n = -n;
            } else if !amount.exact && amount.billionths % 100_000_000 < 50_000_000 {
                n += 1;
            }
            Some(
                if n > i64::MAX as i128 {
                    i64::MAX
                } else if n < i64::MIN as i128 {
                    i64::MIN
                } else {
                    n as i64
                },
            )
        },
        None => None,
    }
}

/// The scenario that a value is, if it keeps to the contract. Whether it makes sense is not judged
/// here.
pub open spec fn scenario_of(value: JsonView) -> Option<ModelScenario> {
    match scenario_parts(value) {
        Some((product, trigger, target)) => match (product_of(product), trigger.unsigned(), target) {
            (Some(product), Some(trigger_price), JsonView::Number(text)) => Some(
                ModelScenario {
                    product,
                    trigger_price,
                    target_return_pct: target_of(text),
                    setup: None,
                },
            ),
            _ => None,
        },
        None => None,
    }
}

fn read_scenario(value: &Json) -> (scenario: Option<ModelScenario>)
    ensures
        scenario == scenario_of(value@),
{
    let (product, trigger, target) = match value {
        Json::Object(members) => {
            proof {
                lemma_object_says(*members);
            }
            if members.len() != 3 {
                return None;
            }
            match (value.get("product"), value.get("triggerPrice"), value.get("targetReturnPct")) {
                (Some(a), Some(b), Some(c)) => (a, b, c),
                _ => return None,
            }
        },
        Json::List(items) => {
            proof {
                lemma_list_says(*items);
            }
            if items.len() != 3 {
                return None;
            }
            (&items[0], &items[1], &items[2])
        },
        _ => return None,
    };
    match (read_product(product), trigger.as_u64(), target) {
        (Some(product), Some(trigger_price), Json::Number(text)) => Some(
            ModelScenario {
                product,
                trigger_price,
                target_return_pct: read_target(text.as_str()),
                setup: None,
            },
        ),
        _ => None,
    }
}

/// The scenarios that values are, if each keeps to the contract.
pub open spec fn all_scenarios(values: Seq<JsonView>) -> Option<Seq<ModelScenario>>
    decreases values.len(),
{
    if values.len() == 0 {
        Some(Seq::empty())
    } else {
        match (all_scenarios(values.drop_last()), scenario_of(values.last())) {
            (Some(rest), Some(scenario)) => Some(rest.push(scenario)),
            _ => None,
        }
    }
}

proof fn lemma_bad_scenario_stays(values: Seq<JsonView>, i: int)
    requires
        0 <= i <= values.len(),
        all_scenarios(values.take(i)) is None,
    ensures
        all_scenarios(values) is None,
    decreases values.len() - i,
{
    if i < values.len() {
        assert(values.take(i + 1).drop_last() =~= values.take(i));
        lemma_bad_scenario_stays(values, i + 1);
    } else {
        assert(values.take(i) =~= values);
    }
}

/// The list of scenarios in a decision: the member `scenarios` and no other, or the one item.
pub open spec fn scenario_list(value: JsonView) -> Option<Seq<JsonView>> {
    match value {
        JsonView::Object(members) => if members.len() == 1 {
            value.list_field("scenarios"@)
        } else {
            None
        },
        JsonView::List(items) => if items.len() == 1 {
            items[0].list()
        } else {
            None
        },
        _ => None,
    }
}

/// The scenarios of a decision that keeps to the contract.
pub open spec fn decision_scenarios(value: JsonView) -> Option<Seq<ModelScenario>> {
    match scenario_list(value) {
        Some(values) => all_scenarios(values),
        None => None,
    }
}

/// Reads a decision strictly: nothing may be missing and nothing may be added.
pub fn read_decision(value: &Json) -> (scenarios: Option<Vec<ModelScenario>>)
    ensures
        match scenarios {
            Some(s) => decision_scenarios(value@) == Some(s@),
            None => decision_scenarios(value@) is None,
        },
{
    let values: &Vec<Json> = match value {
        Json::Object(members) => {
            proof {
                lemma_object_says(*members);
            }
            if members.len() != 1 {
                return None;
            }
            match value.get_array("scenarios") {
                Some(values) => values,
                None => return None,
            }
        },
        Json::List(items) => {
            proof {
                lemma_list_says(*items);
            }
            if items.len() != 1 {
                return None;
            }
            match items[0].as_array() {
                Some(values) => values,
                None => return None,
            }
        },
        _ => return None,
    };
    let mut scenarios: Vec<ModelScenario> = Vec::new();
    let mut i: usize = 0;
    assert(rows(values@).take(0) =~= Seq::empty());
    while i < values.len()
        invariant
            i <= values@.len(),
            scenario_list(value@) == Some(rows(values@)),
            all_scenarios(rows(values@).take(i as int)) == Some(scenarios@),
        decreases values@.len() - i,
    {
        assert(rows(values@).take(i + 1).drop_last() =~= rows(values@).take(i as int));
        assert(rows(values@)[i as int] == values@[i as int]@);
        match read_scenario(&values[i]) {
            Some(scenario) => {
                scenarios.push(scenario);
            },
            None => {
                proof {
                    lemma_bad_scenario_stays(rows(values@), i + 1);
                }
                return None;
            },
        }
        i += 1;
    }
    assert(rows(values@).take(i as int) =~= rows(values@));
    Some(scenarios)
}

/// A count that a reply must tell.
pub open spec fn required_count(usage: JsonView, name: Seq<char>) -> Result<u64, OpenAiFault> {
    match usage.field(name) {
        Some(v) => match v.unsigned() {
            Some(n) => Ok(n),
            None => Err(
                OpenAiFault::InvalidResponse("usage/"@ + name + " 누락 또는 형식 오류"@),
            ),
        },
        None => Err(OpenAiFault::InvalidResponse("usage/"@ + name + " 누락 또는 형식 오류"@)),
    }
}

/// A count that a reply may leave out, or null, for zero.
pub open spec fn optional_count(usage: JsonView, outer: Seq<char>, inner: Seq<char>) -> Result<
    u64,
    OpenAiFault,
> {
    match usage.nested(outer, inner) {
        None => Ok(0),
        Some(JsonView::Null) => Ok(0),
        Some(v) => match v.unsigned() {
            Some(n) => Ok(n),
            None => Err(
                OpenAiFault::InvalidResponse("usage/"@ + outer + "/"@ + inner + " 형식 오류"@),
            ),
        },
    }
}

spec fn gives_count(result: Result<u64, OpenAiError>, expected: Result<u64, OpenAiFault>) -> bool {
    match (result, expected) {
        (Ok(n), Ok(m)) => n == m,
        (Err(error), Err(fault)) => error@ == fault,
        _ => false,
    }
}

fn token_field(usage: &Json, name: &str) -> (result: Result<u64, OpenAiError>)
    ensures
        gives_count(result, required_count(usage@, name@)),
{
    if let Some(v) = usage.get(name) {
        if let Some(n) = v.as_u64() {
            return Ok(n);
        }
    }
    let mut text = joined("usage/", name);
    text.append(" 누락 또는 형식 오류");
    Err(OpenAiError::InvalidResponse(text))
}

fn optional_token_field(usage: &Json, outer: &str, inner: &str) -> (result: Result<
    u64,
    OpenAiError,
>)
    ensures
        gives_count(result, optional_count(usage@, outer@, inner@)),
{
    match usage.get_nested(outer, inner) {
        None => Ok(0),
        Some(v) => {
            if v.is_null() {
                return Ok(0);
            }
            match v.as_u64() {
                Some(n) => Ok(n),
                None => {
                    let mut text = joined("usage/", outer);
                    text.append("/");
                    text.append(inner);
                    text.append(" 형식 오류");
                    Err(OpenAiError::InvalidResponse(text))
                },
            }
        },
    }
}

/// The cost of a reply that must tell it. The first count at fault decides.
pub open spec fn strict_usage(usage: JsonView) -> Result<TokenUsage, OpenAiFault> {
    let input = required_count(usage, "input_tokens"@);
    let cached = optional_count(usage, "input_tokens_details"@, "cached_tokens"@);
    let written = optional_count(usage, "input_tokens_details"@, "cache_write_tokens"@);
    let output = required_count(usage, "output_tokens"@);
    let reasoning = optional_count(usage, "output_tokens_details"@, "reasoning_tokens"@);
    match (input, cached, written, output, reasoning) {
        (Err(fault), _, _, _, _) => Err(fault),
        (_, Err(fault), _, _, _) => Err(fault),
        (_, _, Err(fault), _, _) => Err(fault),
        (_, _, _, Err(fault), _) => Err(fault),
        (_, _, _, _, Err(fault)) => Err(fault),
        (Ok(i), Ok(c), Ok(w), Ok(o), Ok(r)) => Ok(
            TokenUsage {
                input_tokens: i,
                cached_input_tokens: c,
                cache_write_tokens: w,
                output_tokens: o,
                reasoning_tokens: r,
            },
        ),
    }
}

fn read_usage(usage: &Json) -> (result: Result<TokenUsage, OpenAiError>)
    ensures
        match (result, strict_usage(usage@)) {
            (Ok(u), Ok(v)) => u == v,
            (Err(error), Err(fault)) => error@ == fault,
            _ => false,
        },
{
    let input_tokens: u64 = match token_field(usage, "input_tokens") {
        Ok(n) => n,
        Err(error) => return Err(error),
    };
    let cached_input_tokens: u64 = match optional_token_field(
        usage,
        "input_tokens_details",
        "cached_tokens",
    ) {
        Ok(n) => n,
        Err(error) => return Err(error),
    };
    let cache_write_tokens: u64 = match optional_token_field(
        usage,
        "input_tokens_details",
        "cache_write_tokens",
    ) {
        Ok(n) => n,
        Err(error) => return Err(error),
    };
    let output_tokens: u64 = match token_field(usage, "output_tokens") {
        Ok(n) => n,
        Err(error) => return Err(error),
    };
    let reasoning_tokens: u64 = match optional_token_field(
        usage,
        "output_tokens_details",
        "reasoning_tokens",
    ) {
        Ok(n) => n,
        Err(error) => return Err(error),
    };
    Ok(
        TokenUsage {
            input_tokens,
            cached_input_tokens,
            cache_write_tokens,
            output_tokens,
            reasoning_tokens,
        },
    )
}

/// The output text that a completed reply holds.
pub open spec fn completed_text(value: JsonView) -> Result<Seq<char>, OpenAiFault> {
    let status = value.text_field("status"@);
    if value.field("error"@) is Some && !(value.field("error"@)->0 is Null) {
        Err(OpenAiFault::Api(api_error_text(value.field("error"@)->0)))
    } else if status is None {
        Err(OpenAiFault::InvalidResponse("status 누락"@))
    } else if status->0 != "completed"@ {
        Err(
            OpenAiFault::Incomplete(
                match value.nested("incomplete_details"@, "reason"@) {
                    Some(reason) => match reason.text() {
                        Some(t) => t,
                        None => status->0,
                    },
                    None => status->0,
                },
            ),
        )
    } else {
        match value.list_field("output"@) {
            None => Err(OpenAiFault::InvalidResponse("output 배열 누락"@)),
            Some(items) => match items_text(items) {
                Err(fault) => Err(fault),
                Ok(text) => if blank(text) {
                    Err(OpenAiFault::InvalidResponse("구조화 출력이 비어 있음"@))
                } else {
                    Ok(text)
                },
            },
        }
    }
}

/// Reads the output text that a completed reply holds.
pub fn read_output(value: &Json) -> (result: Result<String, OpenAiError>)
    ensures
        gives(result, completed_text(value@)),
{
    if let Some(error) = value.get("error") {
        if !error.is_null() {
            return Err(OpenAiError::Api(api_error_message(error)));
        }
    }
    let status: &str = match value.get_str("status") {
        Some(status) => status,
        None => return Err(OpenAiError::InvalidResponse("status 누락".to_owned())),
    };
    if !same(status, "completed") {
        let mut reason = status;
        if let Some(v) = value.get_nested("incomplete_details", "reason") {
            if let Some(t) = v.as_str() {
                reason = t;
            }
        }
        return Err(OpenAiError::Incomplete(reason.to_owned()));
    }
    let items: &Vec<Json> = match value.get_array("output") {
        Some(items) => items,
        None => return Err(OpenAiError::InvalidResponse("output 배열 누락".to_owned())),
    };
    match read_items(items) {
        Err(error) => Err(error),
        Ok(text) => {
            if is_blank(text.as_str()) {
                return Err(OpenAiError::InvalidResponse("구조화 출력이 비어 있음".to_owned()));
            }
            Ok(text)
        },
    }
}

/// The scenarios that an output text holds. An object that names a member twice keeps to no contract.
pub open spec fn text_scenarios(text: Seq<char>) -> Option<Seq<ModelScenario>> {
    match json_of(text) {
        Some(value) => if repeats_a_name(text) {
            None
        } else {
            decision_scenarios(value)
        },
        None => None,
    }
}

/// Reads the scenarios that an output text holds.
pub fn read_scenarios(text: &str) -> (scenarios: Option<Vec<ModelScenario>>)
    ensures
        match scenarios {
            Some(s) => text_scenarios(text@) == Some(s@),
            None => text_scenarios(text@) is None,
        },
{
    match read_json(text) {
        Ok(value) => {
            if names_twice(text) {
                return None;
            }
            read_decision(&value)
        },
        Err(_) => None,
    }
}

/// What a reply comes to.
pub enum Verdict {
    Fault(OpenAiFault),
    Decision { id: Seq<char>, scenarios: Seq<ModelScenario>, usage: TokenUsage },
}

/// What a completed reply comes to, given the scenarios that its output text holds. Of a text that
/// holds none, a reader told what is wrong with it.
pub open spec fn settled(
    value: JsonView,
    scenarios: Option<Seq<ModelScenario>>,
    told: Seq<char>,
) -> Verdict {
    match scenarios {
        None => Verdict::Fault(
            OpenAiFault::InvalidResponse("결정 JSON 계약 위반: "@ + told),
        ),
        Some(scenarios) => if scenarios.len() > 2 {
            Verdict::Fault(OpenAiFault::InvalidResponse("시나리오가 2개를 초과함"@))
        } else {
            match value.field("usage"@) {
                None => Verdict::Fault(OpenAiFault::InvalidResponse("usage 누락"@)),
                Some(usage) => match strict_usage(usage) {
                    Err(fault) => Verdict::Fault(fault),
                    Ok(usage) => match value.text_field("id"@) {
                        None => Verdict::Fault(OpenAiFault::InvalidResponse("응답 id 누락"@)),
                        Some(id) => Verdict::Decision { id, scenarios, usage },
                    },
                },
            }
        },
    }
}

/// What a reply comes to.
pub open spec fn verdict(value: JsonView, told: Seq<char>) -> Verdict {
    match completed_text(value) {
        Err(fault) => Verdict::Fault(fault),
        Ok(text) => settled(value, text_scenarios(text), told),
    }
}

/// A result is what a verdict says.
pub open spec fn follows(
    result: Result<DecisionResult, OpenAiError>,
    verdict: Verdict,
    latency_ms: u64,
) -> bool {
    match verdict {
        Verdict::Fault(fault) => result matches Err(error) && error@ == fault,
        Verdict::Decision { id, scenarios, usage } => {
            &&& result matches Ok(decision)
            &&& decision.response_id@ == id
            &&& decision.decision.scenarios@ == scenarios
            &&& decision.usage == usage
            &&& decision.latency_ms == latency_ms
        },
    }
}

/// Takes the decision from a completed reply, given the scenarios that its output text holds. Of a
/// text that holds none, a reader told what is wrong with it.
pub fn settle_response(
    value: &Json,
    scenarios: Option<Vec<ModelScenario>>,
    told: &str,
    latency_ms: u64,
) -> (result: Result<DecisionResult, OpenAiError>)
    ensures
        follows(
            result,
            settled(
                value@,
                match scenarios {
                    Some(s) => Some(s@),
                    None => None,
                },
                told@,
            ),
            latency_ms,
        ),
{
    let scenarios = match scenarios {
        Some(scenarios) => scenarios,
        None => return Err(
            OpenAiError::InvalidResponse(joined("결정 JSON 계약 위반: ", told)),
        ),
    };
    if scenarios.len() > 2 {
        return Err(OpenAiError::InvalidResponse("시나리오가 2개를 초과함".to_owned()));
    }
    let usage = match value.get("usage") {
        Some(usage) => usage,
        None => return Err(OpenAiError::InvalidResponse("usage 누락".to_owned())),
    };
    let usage = match read_usage(usage) {
        Ok(usage) => usage,
        Err(error) => return Err(error),
    };
    let response_id = match value.get_str("id") {
        Some(id) => id.to_owned(),
        None => return Err(OpenAiError::InvalidResponse("응답 id 누락".to_owned())),
    };
    Ok(
        DecisionResult {
            response_id,
            decision: ModelDecision { scenarios },
            usage,
            latency_ms,
        },
    )
}

/// Takes the decision from a reply. Where its output text holds none, `told` is what a reader of
/// decisions says of the text.
pub fn parse_response_value_inner(value: &Json, told: &str, latency_ms: u64) -> (result: Result<
    DecisionResult,
    OpenAiError,
>)
    ensures
        follows(result, verdict(value@, told@), latency_ms),
{
    let text = match read_output(value) {
        Ok(text) => text,
        Err(error) => return Err(error),
    };
    settle_response(value, read_scenarios(text.as_str()), told, latency_ms)
}

/// A failure holds an error, and what a reply told of its cost and its identifier.
pub open spec fn salvages(failure: DecisionFailure, value: JsonView, latency_ms: u64) -> bool {
    &&& failure.latency_ms == latency_ms
    &&& failure.usage == salvaged_usage(value)
    &&& opt(failure.response_id) == reply_id(value)
}

/// Takes the decision from a reply. A failure keeps what the reply tells of its cost. Where the output
/// text holds no decision, `told` is what a reader of decisions says of the text.
pub fn parse_response_value(value: &Json, told: &str, latency_ms: u64) -> (result: Result<
    DecisionResult,
    DecisionFailure,
>)
    ensures
        follows(
            match result {
                Ok(decision) => Ok(decision),
                Err(failure) => Err(failure.error),
            },
            verdict(value@, told@),
            latency_ms,
        ),
        result matches Err(failure) ==> salvages(failure, value@, latency_ms),
{
    match parse_response_value_inner(value, told, latency_ms) {
        Ok(decision) => Ok(decision),
        Err(error) => Err(
            DecisionFailure::after_request(error, Some(value), latency_ms, None),
        ),
    }
}

/// What a reply comes to, as the network delivered it: its status, the identifier that its headers
/// give, and its body. `read` is what the body reads as, and `told` what a reader of decisions says of
/// an output text that holds none.
pub fn interpret_response(
    status: u16,
    header_response_id: Option<String>,
    body: &str,
    read: Result<Json, String>,
    told: &str,
    latency_ms: u64,
) -> (result: Result<DecisionResult, DecisionFailure>)
    ensures
        match read {
            Ok(value) => {
                &&& 200 <= status <= 299 ==> follows(
                    match result {
                        Ok(decision) => Ok(decision),
                        Err(failure) => Err(failure.error),
                    },
                    verdict(value@, told@),
                    latency_ms,
                )
                &&& !(200 <= status <= 299) ==> (result matches Err(failure) && failure.error@
                    == (OpenAiFault::HttpStatus {
                    status,
                    message: status_text(Some(value@), body@),
                }))
                &&& result matches Err(failure) ==> {
                    &&& failure.latency_ms == latency_ms
                    &&& failure.usage == salvaged_usage(value@)
                    &&& if reply_id(value@) is Some {
                        opt(failure.response_id) == reply_id(value@)
                    } else {
                        failure.response_id == header_response_id
                    }
                }
            },
            Err(message) => {
                &&& result matches Err(failure)
                &&& failure.usage == TokenUsage::none()
                &&& failure.latency_ms == latency_ms
                &&& failure.response_id == header_response_id
                &&& failure.error@ == (if 200 <= status <= 299 {
                    OpenAiFault::InvalidResponse("응답 JSON 파싱 실패: "@ + message@)
                } else {
                    OpenAiFault::HttpStatus { status, message: status_text(None, body@) }
                })
            },
        },
{
    let success = 200 <= status && status <= 299;
    match read {
        Err(message) => {
            let error = if success {
                OpenAiError::InvalidResponse(joined("응답 JSON 파싱 실패: ", message.as_str()))
            } else {
                http_status_error(status, None, body)
            };
            Err(DecisionFailure::after_request(error, None, latency_ms, header_response_id))
        },
        Ok(value) => {
            if !success {
                let error = http_status_error(status, Some(&value), body);
                return Err(
                    DecisionFailure::after_request(
                        error,
                        Some(&value),
                        latency_ms,
                        header_response_id,
                    ),
                );
            }
            match parse_response_value(&value, told, latency_ms) {
                Ok(decision) => Ok(decision),
                Err(failure) => {
                    if failure.response_id.is_none() {
                        Err(DecisionFailure { response_id: header_response_id, ..failure })
                    } else {
                        Err(failure)
                    }
                },
            }
        },
    }
}

/// The identifier that a reply's headers give. White space is none.
pub fn request_id(header: Option<String>) -> (id: Option<String>)
    ensures
        id == (if header is Some && !blank(header->0@) {
            header
        } else {
            None
        }),
{
    match header {
        Some(text) => if is_blank(text.as_str()) {
            None
        } else {
            Some(text)
        },
        None => None,
    }
}

/// Reads the body of a reply, and what it comes to. Where its output text holds no decision, `told` is
/// what a reader of decisions says of the text.
pub fn read_response(
    status: u16,
    header_response_id: Option<String>,
    body: &str,
    told: &str,
    latency_ms: u64,
) -> (result: Result<DecisionResult, DecisionFailure>)
    ensures
        match json_read(body@) {
            Ok(value) => {
                &&& 200 <= status <= 299 ==> follows(
                    match result {
                        Ok(decision) => Ok(decision),
                        Err(failure) => Err(failure.error),
                    },
                    verdict(value, told@),
                    latency_ms,
                )
                &&& !(200 <= status <= 299) ==> (result matches Err(failure) && failure.error@
                    == (OpenAiFault::HttpStatus {
                    status,
                    message: status_text(Some(value), body@),
                }))
                &&& result matches Err(failure) ==> {
                    &&& failure.latency_ms == latency_ms
                    &&& failure.usage == salvaged_usage(value)
                    &&& if reply_id(value) is Some {
                        opt(failure.response_id) == reply_id(value)
                    } else {
                        failure.response_id == header_response_id
                    }
                }
            },
            Err(message) => {
                &&& result matches Err(failure)
                &&& failure.usage == TokenUsage::none()
                &&& failure.latency_ms == latency_ms
                &&& failure.response_id == header_response_id
                &&& failure.error@ == (if 200 <= status <= 299 {
                    OpenAiFault::InvalidResponse("응답 JSON 파싱 실패: "@ + message)
                } else {
                    OpenAiFault::HttpStatus { status, message: status_text(None, body@) }
                })
            },
        },
{
    let value = read_json(body);
    interpret_response(status, header_response_id, body, value, told, latency_ms)
}

/// A span of the monotonic clock in whole milliseconds.
pub fn elapsed_ms(nanos: u128) -> (ms: u64)
    ensures
        ms == (if nanos / 1_000_000 > u64::MAX {
            u64::MAX as int
        } else {
            nanos as int / 1_000_000
        }),
{
    let ms: u128 = nanos / 1_000_000;
    if ms > u64::MAX as u128 {
        u64::MAX
    } else {
        ms as u64
    }
}

/// Whatever else a reply is, a decision never comes from one that refuses or was cut short.
pub proof fn only_completed_replies_decide(value: JsonView, told: Seq<char>)
    requires
        verdict(value, told) is Decision,
    ensures
        value.text_field("status"@) == Some("completed"@),
        value.list_field("output"@) is Some,
        forall|i: int|
            0 <= i < value.list_field("output"@)->0.len() ==> {
                let item = #[trigger] value.list_field("output"@)->0[i];
                &&& item.text_field("type"@) != Some("refusal"@)
                &&& item.text_field("status"@) != Some("incomplete"@)
            },
        verdict(value, told)->scenarios.len() <= 2,
{
    let items = value.list_field("output"@)->0;
    assert forall|i: int| 0 <= i < items.len() implies item_text(#[trigger] items[i]) is Ok by {
        lemma_items_ok(items, i);
    }
}

proof fn lemma_items_ok(items: Seq<JsonView>, i: int)
    requires
        items_text(items) is Ok,
        0 <= i < items.len(),
    ensures
        item_text(items[i]) is Ok,
    decreases items.len(),
{
    if i < items.len() - 1 {
        lemma_items_ok(items.drop_last(), i);
        assert(items.drop_last()[i] == items[i]);
    }
}

/// How a measured number compares to zero.
#[derive(Debug, Clone, Copy, PartialEq, Eq, Structural)]
pub enum Sign {
    Negative,
    Zero,
    Positive,
    /// Not a finite number.
    NotFinite,
}

/// A measured number: what the request checks of it, and the text that it is sent as.
#[derive(Debug)]
pub struct Measure {
    pub sign: Sign,
    pub text: String,
}

/// The quote of one product.
#[derive(Debug)]
pub struct MarketQuoteInput {
    pub code: String,
    pub price: Measure,
    pub change_rate: Measure,
    pub ask1: Measure,
    pub bid1: Measure,
    pub ask1_qty: u64,
    pub bid1_qty: u64,
    pub spread: Measure,
}

#[derive(Debug)]
pub struct CandleInput {
    pub time: i64,
    pub open: Measure,
    pub high: Measure,
    pub low: Measure,
    pub close: Measure,
    pub volume: Measure,
}

/// The current candle of an interval, with its moving averages.
#[derive(Debug)]
pub struct IndicatorInput {
    pub interval_minutes: u32,
    pub current: CandleInput,
    pub ma5: Measure,
    pub ma20: Measure,
    pub ma60: Measure,
    pub ma120: Measure,
}

/// All that one request may tell: each decision stands by itself.
#[derive(Debug)]
pub struct DecisionInput {
    pub as_of_kst: String,
    pub underlying: MarketQuoteInput,
    pub leverage: MarketQuoteInput,
    pub inverse: MarketQuoteInput,
    pub ten_minute: IndicatorInput,
    pub fifteen_minute: IndicatorInput,
    pub chart_png: Vec<u8>,
}

impl MarketQuoteInput {
    pub open spec fn readable(self) -> bool {
        !blank(self.code@) && self.price.sign != Sign::NotFinite && self.change_rate.sign
            != Sign::NotFinite && self.ask1.sign != Sign::NotFinite && self.bid1.sign
            != Sign::NotFinite && self.spread.sign != Sign::NotFinite
    }

    pub open spec fn priced(self) -> bool {
        self.price.sign == Sign::Positive && self.ask1.sign == Sign::Positive && self.bid1.sign
            == Sign::Positive
    }
}

/// A number of billionths as a request writes it: with a point in any case.
pub open spec fn point_text(n: int) -> Seq<char> {
    if n % 1_000_000_000 == 0 {
        plain_text(n) + ".0"@
    } else {
        plain_text(n)
    }
}

/// The measure is this number of billionths.
pub open spec fn measures(m: Measure, n: int) -> bool {
    &&& m.text@ == point_text(n)
    &&& m.sign == (if n < 0 {
        Sign::Negative
    } else if n == 0 {
        Sign::Zero
    } else {
        Sign::Positive
    })
}

/// A number of billionths as a measure.
pub fn measure(n: i128) -> (m: Measure)
    requires
        n > i128::MIN,
    ensures
        measures(m, n as int),
{
    let mut text = write_plain(n);
    let whole = if n < 0 {
        (-n) % 1_000_000_000 == 0
    } else {
        n % 1_000_000_000 == 0
    };
    if whole {
        text.append(".0");
    }
    let sign = if n < 0 {
        Sign::Negative
    } else if n == 0 {
        Sign::Zero
    } else {
        Sign::Positive
    };
    assert(whole == (n as int % 1_000_000_000 == 0));
    Measure { sign, text }
}

impl MarketQuoteInput {
    /// What a request tells of a quote.
    pub fn from_quote(quote: &Quote) -> (input: MarketQuoteInput)
        ensures
            input.code@ == quote@.code,
            measures(input.price, quote@.price * 1_000_000_000),
            measures(input.change_rate, quote@.change_rate as int),
            measures(input.ask1, quote@.ask1 * 1_000_000_000),
            measures(input.bid1, quote@.bid1 * 1_000_000_000),
            input.ask1_qty == quote@.ask1_qty,
            input.bid1_qty == quote@.bid1_qty,
            measures(input.spread, (quote@.ask1 - quote@.bid1) * 1_000_000_000),
    {
        MarketQuoteInput {
            code: quote.code.clone(),
            price: measure(quote.price as i128 * 1_000_000_000),
            change_rate: measure(quote.change_rate as i128),
            ask1: measure(quote.ask1 as i128 * 1_000_000_000),
            bid1: measure(quote.bid1 as i128 * 1_000_000_000),
            ask1_qty: quote.ask1_qty,
            bid1_qty: quote.bid1_qty,
            spread: measure((quote.ask1 as i128 - quote.bid1 as i128) * 1_000_000_000),
        }
    }
}

/// What is wrong with a quote.
pub open spec fn quote_fault(label: Seq<char>, quote: MarketQuoteInput) -> Option<OpenAiFault> {
    if !quote.readable() {
        Some(
            OpenAiFault::InvalidInput(
                label + " 시세에 빈 코드 또는 유한하지 않은 값이 있음"@,
            ),
        )
    } else if !quote.priced() {
        Some(OpenAiFault::InvalidInput(label + " 체결가·1호가가 0 이하임"@))
    } else {
        None
    }
}

impl IndicatorInput {
    pub open spec fn usable(self) -> bool {
        &&& self.current.open.sign == Sign::Positive
        &&& self.current.high.sign == Sign::Positive
        &&& self.current.low.sign == Sign::Positive
        &&& self.current.close.sign == Sign::Positive
        &&& self.current.volume.sign == Sign::Positive || self.current.volume.sign == Sign::Zero
        &&& self.ma5.sign == Sign::Positive
        &&& self.ma20.sign == Sign::Positive
        &&& self.ma60.sign == Sign::Positive
        &&& self.ma120.sign == Sign::Positive
    }
}

/// What is wrong with an indicator.
pub open spec fn indicator_fault(label: Seq<char>, indicator: IndicatorInput, minutes: u32) -> Option<
    OpenAiFault,
> {
    if indicator.interval_minutes != minutes {
        Some(
            OpenAiFault::InvalidInput(
                label + " 주기가 "@ + digits(indicator.interval_minutes as nat)
                    + "분으로 지정됨"@,
            ),
        )
    } else if !indicator.usable() {
        Some(
            OpenAiFault::InvalidInput(label + " OHLCV 또는 이동평균이 올바르지 않음"@),
        )
    } else {
        None
    }
}

/// The eight bytes that every PNG begins with.
pub open spec fn png_signature() -> Seq<u8> {
    seq![0x89u8, 0x50, 0x4e, 0x47, 0x0d, 0x0a, 0x1a, 0x0a]
}

pub open spec fn is_png(bytes: Seq<u8>) -> bool {
    bytes.len() >= 8 && bytes.take(8) == png_signature()
}

/// The first thing that is wrong with an input.
pub open spec fn input_fault(input: DecisionInput) -> Option<OpenAiFault> {
    if blank(input.as_of_kst@) {
        Some(OpenAiFault::InvalidInput("KST 기준시각이 비어 있음"@))
    } else if quote_fault("SK하이닉스"@, input.underlying) is Some {
        quote_fault("SK하이닉스"@, input.underlying)
    } else if quote_fault("레버리지 ETF"@, input.leverage) is Some {
        quote_fault("레버리지 ETF"@, input.leverage)
    } else if quote_fault("곱버스 ETF"@, input.inverse) is Some {
        quote_fault("곱버스 ETF"@, input.inverse)
    } else if indicator_fault("10분봉"@, input.ten_minute, 10) is Some {
        indicator_fault("10분봉"@, input.ten_minute, 10)
    } else if indicator_fault("15분봉"@, input.fifteen_minute, 15) is Some {
        indicator_fault("15분봉"@, input.fifteen_minute, 15)
    } else if !is_png(input.chart_png@) {
        Some(OpenAiFault::InvalidInput("차트 이미지가 PNG 형식이 아님"@))
    } else {
        None
    }
}

/// The check found exactly this fault, or none.
pub open spec fn finds(result: Result<(), OpenAiError>, fault: Option<OpenAiFault>) -> bool {
    match (result, fault) {
        (Ok(_), None) => true,
        (Err(error), Some(fault)) => error@ == fault,
        _ => false,
    }
}

fn validate_quote(label: &str, quote: &MarketQuoteInput) -> (result: Result<(), OpenAiError>)
    ensures
        finds(result, quote_fault(label@, *quote)),
{
    if is_blank(quote.code.as_str()) || quote.price.sign == Sign::NotFinite
        || quote.change_rate.sign == Sign::NotFinite || quote.ask1.sign == Sign::NotFinite
        || quote.bid1.sign == Sign::NotFinite || quote.spread.sign == Sign::NotFinite {
        return Err(
            OpenAiError::InvalidInput(
                joined(label, " 시세에 빈 코드 또는 유한하지 않은 값이 있음"),
            ),
        );
    }
    if quote.price.sign != Sign::Positive || quote.ask1.sign != Sign::Positive || quote.bid1.sign
        != Sign::Positive {
        return Err(OpenAiError::InvalidInput(joined(label, " 체결가·1호가가 0 이하임")));
    }
    Ok(())
}

fn validate_indicator(label: &str, indicator: &IndicatorInput, minutes: u32) -> (result: Result<
    (),
    OpenAiError,
>)
    ensures
        finds(result, indicator_fault(label@, *indicator, minutes)),
{
    if indicator.interval_minutes != minutes {
        let mut text = joined(label, " 주기가 ");
        text.append(decimal(indicator.interval_minutes as u64).as_str());
        text.append("분으로 지정됨");
        return Err(OpenAiError::InvalidInput(text));
    }
    let candle = &indicator.current;
    let usable = candle.open.sign == Sign::Positive && candle.high.sign == Sign::Positive
        && candle.low.sign == Sign::Positive && candle.close.sign == Sign::Positive && (
    candle.volume.sign == Sign::Positive || candle.volume.sign == Sign::Zero) && indicator.ma5.sign
        == Sign::Positive && indicator.ma20.sign == Sign::Positive && indicator.ma60.sign
        == Sign::Positive && indicator.ma120.sign == Sign::Positive;
    if !usable {
        return Err(
            OpenAiError::InvalidInput(joined(label, " OHLCV 또는 이동평균이 올바르지 않음")),
        );
    }
    Ok(())
}

fn has_png_signature(bytes: &Vec<u8>) -> (yes: bool)
    ensures
        yes == is_png(bytes@),
{
    if bytes.len() < 8 {
        return false;
    }
    let yes = bytes[0] == 0x89 && bytes[1] == 0x50 && bytes[2] == 0x4e && bytes[3] == 0x47
        && bytes[4] == 0x0d && bytes[5] == 0x0a && bytes[6] == 0x1a && bytes[7] == 0x0a;
    proof {
        let head = bytes@.take(8);
        if yes {
            assert(head =~= png_signature());
        } else {
            assert(head[0] == bytes@[0] && head[1] == bytes@[1] && head[2] == bytes@[2] && head[3]
                == bytes@[3] && head[4] == bytes@[4] && head[5] == bytes@[5] && head[6]
                == bytes@[6] && head[7] == bytes@[7]);
            let p = png_signature();
            assert(p[0] == 0x89 && p[1] == 0x50 && p[2] == 0x4e && p[3] == 0x47 && p[4] == 0x0d
                && p[5] == 0x0a && p[6] == 0x1a && p[7] == 0x0a);
        }
    }
    yes
}

/// Checks what a request would tell, before anything is sent.
pub fn validate_input(input: &DecisionInput) -> (result: Result<(), OpenAiError>)
    ensures
        finds(result, input_fault(*input)),
{
    if is_blank(input.as_of_kst.as_str()) {
        return Err(OpenAiError::InvalidInput("KST 기준시각이 비어 있음".to_owned()));
    }
    if let Err(error) = validate_quote("SK하이닉스", &input.underlying) {
        return Err(error);
    }
    if let Err(error) = validate_quote("레버리지 ETF", &input.leverage) {
        return Err(error);
    }
    if let Err(error) = validate_quote("곱버스 ETF", &input.inverse) {
        return Err(error);
    }
    if let Err(error) = validate_indicator("10분봉", &input.ten_minute, 10) {
        return Err(error);
    }
    if let Err(error) = validate_indicator("15분봉", &input.fifteen_minute, 15) {
        return Err(error);
    }
    if !has_png_signature(&input.chart_png) {
        return Err(OpenAiError::InvalidInput("차트 이미지가 PNG 형식이 아님".to_owned()));
    }
    Ok(())
}

/// What a request tells of a quote.
pub open spec fn quote_said(quote: MarketQuoteInput) -> JsonView {
    JsonView::Object(
        seq![
            text_of("code"@, quote.code@),
            number_of("price"@, quote.price.text@),
            number_of("changeRate"@, quote.change_rate.text@),
            number_of("ask1"@, quote.ask1.text@),
            number_of("bid1"@, quote.bid1.text@),
            number_of("ask1Qty"@, digits(quote.ask1_qty as nat)),
            number_of("bid1Qty"@, digits(quote.bid1_qty as nat)),
            number_of("spread"@, quote.spread.text@),
        ],
    )
}

fn quote_json(quote: &MarketQuoteInput) -> (value: Json)
    ensures
        value@ == quote_said(*quote),
{
    let mut m: Vec<Member> = Vec::new();
    m.push(text_member("code", quote.code.as_str()));
    m.push(number_member("price", quote.price.text.clone()));
    m.push(number_member("changeRate", quote.change_rate.text.clone()));
    m.push(number_member("ask1", quote.ask1.text.clone()));
    m.push(number_member("bid1", quote.bid1.text.clone()));
    m.push(number_member("ask1Qty", decimal(quote.ask1_qty)));
    m.push(number_member("bid1Qty", decimal(quote.bid1_qty)));
    m.push(number_member("spread", quote.spread.text.clone()));
    assert(rows(m@) =~= members_of(quote_said(*quote)));
    object(m)
}

/// What a request tells of a candle.
pub open spec fn candle_said(candle: CandleInput) -> JsonView {
    JsonView::Object(
        seq![
            number_of("time"@, signed_digits(candle.time as int)),
            number_of("open"@, candle.open.text@),
            number_of("high"@, candle.high.text@),
            number_of("low"@, candle.low.text@),
            number_of("close"@, candle.close.text@),
            number_of("volume"@, candle.volume.text@),
        ],
    )
}

/// What a request tells of an indicator.
pub open spec fn indicator_said(indicator: IndicatorInput) -> JsonView {
    JsonView::Object(
        seq![
            number_of("intervalMinutes"@, digits(indicator.interval_minutes as nat)),
            ("current"@, candle_said(indicator.current)),
            number_of("ma5"@, indicator.ma5.text@),
            number_of("ma20"@, indicator.ma20.text@),
            number_of("ma60"@, indicator.ma60.text@),
            number_of("ma120"@, indicator.ma120.text@),
        ],
    )
}

fn candle_json(candle: &CandleInput) -> (value: Json)
    ensures
        value@ == candle_said(*candle),
{
    let mut m: Vec<Member> = Vec::new();
    m.push(number_member("time", signed_decimal(candle.time)));
    m.push(number_member("open", candle.open.text.clone()));
    m.push(number_member("high", candle.high.text.clone()));
    m.push(number_member("low", candle.low.text.clone()));
    m.push(number_member("close", candle.close.text.clone()));
    m.push(number_member("volume", candle.volume.text.clone()));
    assert(rows(m@) =~= members_of(candle_said(*candle)));
    object(m)
}

fn indicator_json(indicator: &IndicatorInput) -> (value: Json)
    ensures
        value@ == indicator_said(*indicator),
{
    let mut m: Vec<Member> = Vec::new();
    m.push(number_member("intervalMinutes", decimal(indicator.interval_minutes as u64)));
    m.push(member("current", candle_json(&indicator.current)));
    m.push(number_member("ma5", indicator.ma5.text.clone()));
    m.push(number_member("ma20", indicator.ma20.text.clone()));
    m.push(number_member("ma60", indicator.ma60.text.clone()));
    m.push(number_member("ma120", indicator.ma120.text.clone()));
    assert(rows(m@) =~= members_of(indicator_said(*indicator)));
    object(m)
}

/// What a request tells of the market: the time, the quotes and the indicators.
pub open spec fn input_said(input: DecisionInput) -> JsonView {
    let quotes = seq![
        ("skHynix"@, quote_said(input.underlying)),
        ("leverageEtf"@, quote_said(input.leverage)),
        ("inverseEtf"@, quote_said(input.inverse)),
    ];
    let indicators = seq![
        ("tenMinute"@, indicator_said(input.ten_minute)),
        ("fifteenMinute"@, indicator_said(input.fifteen_minute)),
    ];
    JsonView::Object(
        seq![
            text_of("asOfKst"@, input.as_of_kst@),
            ("quotes"@, JsonView::Object(quotes)),
            ("indicators"@, JsonView::Object(indicators)),
        ],
    )
}

/// What a request tells of the market.
pub fn dynamic_input(input: &DecisionInput) -> (value: Json)
    ensures
        value@ == input_said(*input),
{
    let ghost said = members_of(input_said(*input));
    let mut quotes: Vec<Member> = Vec::new();
    quotes.push(member("skHynix", quote_json(&input.underlying)));
    quotes.push(member("leverageEtf", quote_json(&input.leverage)));
    quotes.push(member("inverseEtf", quote_json(&input.inverse)));
    assert(rows(quotes@) =~= members_of(said[1].1));
    let mut indicators: Vec<Member> = Vec::new();
    indicators.push(member("tenMinute", indicator_json(&input.ten_minute)));
    indicators.push(member("fifteenMinute", indicator_json(&input.fifteen_minute)));
    assert(rows(indicators@) =~= members_of(said[2].1));
    let mut m: Vec<Member> = Vec::new();
    m.push(text_member("asOfKst", input.as_of_kst.as_str()));
    m.push(member("quotes", object(quotes)));
    m.push(member("indicators", object(indicators)));
    assert(rows(m@) =~= said);
    object(m)
}

/// The schema of one scenario: a product, the price that sets it off, and what it is to gain.
pub open spec fn scenario_said() -> JsonView {
    let kinds = seq![JsonView::Text("LEVERAGE"@), JsonView::Text("INVERSE"@)];
    let product = seq![text_of("type"@, "string"@), ("enum"@, JsonView::List(kinds))];
    let trigger = seq![text_of("type"@, "integer"@), number_of("exclusiveMinimum"@, "0"@)];
    let target = seq![
        text_of("type"@, "number"@),
        number_of("minimum"@, "0.2"@),
        number_of("maximum"@, "2.0"@),
        number_of("multipleOf"@, "0.1"@),
    ];
    let properties = seq![
        ("product"@, JsonView::Object(product)),
        ("triggerPrice"@, JsonView::Object(trigger)),
        ("targetReturnPct"@, JsonView::Object(target)),
    ];
    let required = seq![
        JsonView::Text("product"@),
        JsonView::Text("triggerPrice"@),
        JsonView::Text("targetReturnPct"@),
    ];
    JsonView::Object(
        seq![
            text_of("type"@, "object"@),
            ("properties"@, JsonView::Object(properties)),
            ("required"@, JsonView::List(required)),
            flag_of("additionalProperties"@, false),
        ],
    )
}

fn scenario_schema() -> (value: Json)
    ensures
        value@ == scenario_said(),
{
    let ghost said = members_of(scenario_said());
    let ghost parts = members_of(said[1].1);
    let mut kinds: Vec<Json> = Vec::new();
    kinds.push(text_value("LEVERAGE"));
    kinds.push(text_value("INVERSE"));
    assert(rows(kinds@) =~= members_of(parts[0].1)[1].1->List_0);
    let mut product: Vec<Member> = Vec::new();
    product.push(text_member("type", "string"));
    product.push(member("enum", list(kinds)));
    assert(rows(product@) =~= members_of(parts[0].1));
    let mut trigger: Vec<Member> = Vec::new();
    trigger.push(text_member("type", "integer"));
    trigger.push(number_member("exclusiveMinimum", "0".to_owned()));
    assert(rows(trigger@) =~= members_of(parts[1].1));
    let mut target: Vec<Member> = Vec::new();
    target.push(text_member("type", "number"));
    target.push(number_member("minimum", "0.2".to_owned()));
    target.push(number_member("maximum", "2.0".to_owned()));
    target.push(number_member("multipleOf", "0.1".to_owned()));
    assert(rows(target@) =~= members_of(parts[2].1));
    let mut properties: Vec<Member> = Vec::new();
    properties.push(member("product", object(product)));
    properties.push(member("triggerPrice", object(trigger)));
    properties.push(member("targetReturnPct", object(target)));
    assert(rows(properties@) =~= parts);
    let mut required: Vec<Json> = Vec::new();
    required.push(text_value("product"));
    required.push(text_value("triggerPrice"));
    required.push(text_value("targetReturnPct"));
    assert(rows(required@) =~= said[2].1->List_0);
    let mut m: Vec<Member> = Vec::new();
    m.push(text_member("type", "object"));
    m.push(member("properties", object(properties)));
    m.push(member("required", list(required)));
    m.push(bool_member("additionalProperties", false));
    assert(rows(m@) =~= said);
    object(m)
}

/// The form that a decision is asked for in: up to two scenarios, and nothing else.
pub open spec fn decision_said() -> JsonView {
    let scenarios = seq![
        text_of("type"@, "array"@),
        number_of("minItems"@, "0"@),
        number_of("maxItems"@, "2"@),
        ("items"@, scenario_said()),
    ];
    let schema = seq![
        text_of("type"@, "object"@),
        ("properties"@, JsonView::Object(seq![("scenarios"@, JsonView::Object(scenarios))])),
        ("required"@, JsonView::List(seq![JsonView::Text("scenarios"@)])),
        flag_of("additionalProperties"@, false),
    ];
    JsonView::Object(
        seq![
            text_of("type"@, "json_schema"@),
            text_of("name"@, "sk_hynix_oco_decision"@),
            flag_of("strict"@, true),
            ("schema"@, JsonView::Object(schema)),
        ],
    )
}

/// The form that a decision is asked for in.
pub fn decision_json_schema() -> (value: Json)
    ensures
        value@ == decision_said(),
{
    let ghost said = members_of(decision_said());
    let ghost parts = members_of(said[3].1);
    let ghost within = members_of(parts[1].1);
    let mut scenarios: Vec<Member> = Vec::new();
    scenarios.push(text_member("type", "array"));
    scenarios.push(number_member("minItems", "0".to_owned()));
    scenarios.push(number_member("maxItems", "2".to_owned()));
    scenarios.push(member("items", scenario_schema()));
    assert(rows(scenarios@) =~= members_of(within[0].1));
    let mut properties: Vec<Member> = Vec::new();
    properties.push(member("scenarios", object(scenarios)));
    assert(rows(properties@) =~= within);
    let mut required: Vec<Json> = Vec::new();
    required.push(text_value("scenarios"));
    assert(rows(required@) =~= parts[2].1->List_0);
    let mut schema: Vec<Member> = Vec::new();
    schema.push(text_member("type", "object"));
    schema.push(member("properties", object(properties)));
    schema.push(member("required", list(required)));
    schema.push(bool_member("additionalProperties", false));
    assert(rows(schema@) =~= parts);
    let mut m: Vec<Member> = Vec::new();
    m.push(text_member("type", "json_schema"));
    m.push(text_member("name", "sk_hynix_oco_decision"));
    m.push(bool_member("strict", true));
    m.push(member("schema", object(schema)));
    assert(rows(m@) =~= said);
    object(m)
}

/// The text that standard base64 with padding writes for some bytes.
pub uninterp spec fn base64_text(bytes: Seq<u8>) -> Seq<char>;

/// `base64::engine::general_purpose::STANDARD.encode`.
///
/// Claimed: the text depends on the bytes alone, and has four characters for every three bytes
/// begun.
#[verifier::external_body]
fn encode_base64(bytes: &Vec<u8>) -> (text: String)
    ensures
        text@ == base64_text(bytes@),
        text@.len() == (bytes@.len() + 2) / 3 * 4,
{
    base64::engine::general_purpose::STANDARD.encode(bytes)
}

/// A message from `role`.
pub open spec fn message_said(role: Seq<char>, content: Seq<JsonView>) -> JsonView {
    JsonView::Object(seq![text_of("role"@, role), ("content"@, JsonView::List(content))])
}

/// A text as the content of a message.
pub open spec fn input_text_said(text: Seq<char>) -> JsonView {
    JsonView::Object(seq![text_of("type"@, "input_text"@), text_of("text"@, text)])
}

/// An image as the content of a message.
pub open spec fn input_image_said(url: Seq<char>) -> JsonView {
    JsonView::Object(
        seq![
            text_of("type"@, "input_image"@),
            text_of("image_url"@, url),
            text_of("detail"@, "high"@),
        ],
    )
}

/// The request that asks the model for a decision on this text and this image, and for nothing else:
/// it names no tools and no earlier reply.
pub open spec fn request_said(text: Seq<char>, image_url: Seq<char>) -> JsonView {
    let reasoning = seq![text_of("effort"@, "max"@), text_of("context"@, "current_turn"@)];
    let form = seq![text_of("verbosity"@, "low"@), ("format"@, decision_said())];
    let messages = seq![
        message_said("system"@, seq![input_text_said(SYSTEM_PROMPT@)]),
        message_said("user"@, seq![input_text_said(text), input_image_said(image_url)]),
    ];
    JsonView::Object(
        seq![
            text_of("model"@, MODEL@),
            ("reasoning"@, JsonView::Object(reasoning)),
            flag_of("store"@, false),
            ("text"@, JsonView::Object(form)),
            number_of("max_output_tokens"@, "4096"@),
            ("input"@, JsonView::List(messages)),
        ],
    )
}

fn message_json(role: &str, content: Vec<Json>) -> (value: Json)
    ensures
        value@ == message_said(role@, rows(content@)),
{
    let ghost said = message_said(role@, rows(content@));
    let mut m: Vec<Member> = Vec::new();
    m.push(text_member("role", role));
    m.push(member("content", list(content)));
    assert(rows(m@) =~= members_of(said));
    object(m)
}

fn input_text_json(text: &str) -> (value: Json)
    ensures
        value@ == input_text_said(text@),
{
    let mut m: Vec<Member> = Vec::new();
    m.push(text_member("type", "input_text"));
    m.push(text_member("text", text));
    assert(rows(m@) =~= members_of(input_text_said(text@)));
    object(m)
}

fn input_image_json(image_url: &str) -> (value: Json)
    ensures
        value@ == input_image_said(image_url@),
{
    let mut m: Vec<Member> = Vec::new();
    m.push(text_member("type", "input_image"));
    m.push(text_member("image_url", image_url));
    m.push(text_member("detail", "high"));
    assert(rows(m@) =~= members_of(input_image_said(image_url@)));
    object(m)
}

/// The request for a decision on this text and this image.
pub fn request_body(text: &str, image_url: &str) -> (body: Json)
    ensures
        body@ == request_said(text@, image_url@),
{
    let ghost said = members_of(request_said(text@, image_url@));
    let mut system: Vec<Json> = Vec::new();
    system.push(input_text_json(SYSTEM_PROMPT));
    assert(rows(system@) =~= seq![input_text_said(SYSTEM_PROMPT@)]);
    let mut user: Vec<Json> = Vec::new();
    user.push(input_text_json(text));
    user.push(input_image_json(image_url));
    assert(rows(user@) =~= seq![input_text_said(text@), input_image_said(image_url@)]);
    let mut messages: Vec<Json> = Vec::new();
    messages.push(message_json("system", system));
    messages.push(message_json("user", user));
    assert(rows(messages@) =~= said[5].1->List_0);
    let mut reasoning: Vec<Member> = Vec::new();
    reasoning.push(text_member("effort", "max"));
    reasoning.push(text_member("context", "current_turn"));
    assert(rows(reasoning@) =~= members_of(said[1].1));
    let mut form: Vec<Member> = Vec::new();
    form.push(text_member("verbosity", "low"));
    form.push(member("format", decision_json_schema()));
    assert(rows(form@) =~= members_of(said[3].1));
    let mut m: Vec<Member> = Vec::new();
    m.push(text_member("model", MODEL));
    m.push(member("reasoning", object(reasoning)));
    m.push(bool_member("store", false));
    m.push(member("text", object(form)));
    m.push(number_member("max_output_tokens", "4096".to_owned()));
    m.push(member("input", list(messages)));
    assert(rows(m@) =~= said);
    object(m)
}

/// The request for a decision, or what is wrong with the input.
pub fn build_request_body(input: &DecisionInput) -> (result: Result<Json, OpenAiError>)
    ensures
        match result {
            Ok(body) => input_fault(*input) is None && body@ == request_said(
                written(input_said(*input)),
                "data:image/png;base64,"@ + base64_text(input.chart_png@),
            ),
            Err(error) => input_fault(*input) == Some(error@),
        },
{
    if let Err(error) = validate_input(input) {
        return Err(error);
    }
    let told = dynamic_input(input);
    let text = write_json(&told);
    let image = joined("data:image/png;base64,", encode_base64(&input.chart_png).as_str());
    Ok(request_body(text.as_str(), image.as_str()))
}

/// The key that requests are signed with, or why there is none.
pub fn checked_api_key(api_key: String) -> (result: Result<String, OpenAiError>)
    ensures
        match result {
            Ok(key) => !blank(api_key@) && key == api_key,
            Err(error) => blank(api_key@) && error == OpenAiError::MissingApiKey,
        },
{
    if is_blank(api_key.as_str()) {
        Err(OpenAiError::MissingApiKey)
    } else {
        Ok(api_key)
    }
}

/// The texts of parts, and of items, follow one another, and the first fault among them is the fault
/// of all.
pub proof fn texts_follow_one_another(a: Seq<JsonView>, b: Seq<JsonView>)
    ensures
        parts_text(a) matches Err(fault) ==> parts_text(a + b) == Err::<Seq<char>, OpenAiFault>(
            fault,
        ),
        parts_text(a) is Ok ==> (parts_text(b) matches Err(fault) ==> parts_text(a + b) == Err::<
            Seq<char>,
            OpenAiFault,
        >(fault)),
        parts_text(a) is Ok && parts_text(b) is Ok ==> parts_text(a + b) == Ok::<
            Seq<char>,
            OpenAiFault,
        >(parts_text(a)->Ok_0 + parts_text(b)->Ok_0),
        items_text(a) matches Err(fault) ==> items_text(a + b) == Err::<Seq<char>, OpenAiFault>(
            fault,
        ),
        items_text(a) is Ok ==> (items_text(b) matches Err(fault) ==> items_text(a + b) == Err::<
            Seq<char>,
            OpenAiFault,
        >(fault)),
        items_text(a) is Ok && items_text(b) is Ok ==> items_text(a + b) == Ok::<
            Seq<char>,
            OpenAiFault,
        >(items_text(a)->Ok_0 + items_text(b)->Ok_0),
    decreases b.len(),
{
    if b.len() == 0 {
        assert(a + b =~= a);
        if parts_text(a) is Ok {
            assert(parts_text(a)->Ok_0 + Seq::<char>::empty() =~= parts_text(a)->Ok_0);
        }
        if items_text(a) is Ok {
            assert(items_text(a)->Ok_0 + Seq::<char>::empty() =~= items_text(a)->Ok_0);
        }
    } else {
        let front = b.drop_last();
        texts_follow_one_another(a, front);
        assert((a + b).drop_last() =~= a + front);
        if parts_text(a) is Ok && parts_text(b) is Ok {
            let last = part_text(b.last())->Ok_0;
            assert(parts_text(a)->Ok_0 + (parts_text(front)->Ok_0 + last) =~= parts_text(a)->Ok_0
                + parts_text(front)->Ok_0 + last);
        }
        if items_text(a) is Ok && items_text(b) is Ok {
            let last = item_text(b.last())->Ok_0;
            assert(items_text(a)->Ok_0 + (items_text(front)->Ok_0 + last) =~= items_text(a)->Ok_0
                + items_text(front)->Ok_0 + last);
        }
    }
}

/// A part says its text, refuses, or says nothing; an item refuses or was cut short, or says its own
/// text and then that of its parts.
pub proof fn parts_say_their_text(part: JsonView, text: Seq<char>)
    ensures
        parts_text(Seq::empty()) == Ok::<Seq<char>, OpenAiFault>(Seq::empty()),
        part.text_field("type"@) == Some("output_text"@) && part.text_field("text"@) == Some(text)
            ==> part_text(part) == Ok::<Seq<char>, OpenAiFault>(text),
        part.text_field("type"@) == Some("refusal"@) ==> (part_text(part) matches Err(
            OpenAiFault::Refused(_),
        )) && (item_text(part) matches Err(OpenAiFault::Refused(_))),
        part.text_field("type"@) == Some("refusal"@) && part.field("refusal"@) == Some(
            JsonView::Text(text),
        ) ==> part_text(part) == Err::<Seq<char>, OpenAiFault>(OpenAiFault::Refused(text)),
        part.text_field("type"@) != Some("output_text"@) && part.text_field("type"@) != Some(
            "refusal"@,
        ) ==> part_text(part) == Ok::<Seq<char>, OpenAiFault>(Seq::empty()),
        part.text_field("type"@) != Some("refusal"@) && part.text_field("status"@) == Some(
            "incomplete"@,
        ) ==> (item_text(part) matches Err(OpenAiFault::Incomplete(_))),
        part.text_field("type"@) != Some("refusal"@) && part.text_field("type"@) != Some(
            "output_text"@,
        ) && part.text_field("status"@) != Some("incomplete"@) ==> (part.list_field("content"@)
            matches Some(parts) ==> item_text(part) == parts_text(parts)),
{
    reveal_strlit("refusal");
    reveal_strlit("output_text");
    assert("refusal"@.len() != "output_text"@.len());
    if let Some(parts) = part.list_field("content"@) {
        if parts_text(parts) is Ok {
            assert(Seq::<char>::empty() + parts_text(parts)->Ok_0 =~= parts_text(parts)->Ok_0);
        }
    }
}

/// The tokens of a reply are read from their places. Input and output must be told; the cached, the
/// written and the reasoning ones count as none where they are not. What is saved from a reply that
/// failed is read from the same places.
pub proof fn tokens_are_read_from_their_places(value: JsonView, usage: JsonView)
    requires
        value.field("usage"@) == Some(usage),
    ensures
        strict_usage(usage) matches Ok(told) ==> {
            &&& usage.field("input_tokens"@) matches Some(n) && n.unsigned() == Some(
                told.input_tokens,
            )
            &&& usage.field("output_tokens"@) matches Some(n) && n.unsigned() == Some(
                told.output_tokens,
            )
            &&& usage.nested("input_tokens_details"@, "cached_tokens"@) is None
                ==> told.cached_input_tokens == 0
            &&& usage.nested("input_tokens_details"@, "cached_tokens"@) matches Some(n) ==> (
            n.unsigned() matches Some(k) ==> told.cached_input_tokens == k)
            &&& usage.nested("input_tokens_details"@, "cache_write_tokens"@) matches Some(n) ==> (
            n.unsigned() matches Some(k) ==> told.cache_write_tokens == k)
            &&& usage.nested("output_tokens_details"@, "reasoning_tokens"@) matches Some(n) ==> (
            n.unsigned() matches Some(k) ==> told.reasoning_tokens == k)
            &&& salvaged_usage(value) == told
        },
        usage.field("input_tokens"@) is None || usage.field("output_tokens"@) is None
            ==> strict_usage(usage) is Err,
        salvaged_usage(value).input_tokens == (match usage.field("input_tokens"@) {
            Some(JsonView::Number(text)) => match (JsonView::Number(text)).unsigned() {
                Some(n) => n,
                None => 0u64,
            },
            _ => 0u64,
        }),
{
}

/// A scenario names its product, its trigger and its target, and nothing else. A trigger that is no
/// whole number, or a product of another name, makes the whole decision none.
pub proof fn scenario_is_read_from_its_members(value: JsonView)
    ensures
        scenario_of(value) matches Some(scenario) ==> (value is Object ==> {
            &&& value->Object_0.len() == 3
            &&& value.field("product"@) matches Some(product) && (product == JsonView::Text(
                "LEVERAGE"@,
            ) ==> scenario.product == ProductKind::Leverage) && (product == JsonView::Text(
                "INVERSE"@,
            ) ==> scenario.product == ProductKind::Inverse)
            &&& value.field("triggerPrice"@) matches Some(trigger) && trigger.unsigned() == Some(
                scenario.trigger_price,
            )
            &&& value.field("targetReturnPct"@) matches Some(JsonView::Number(target))
                && scenario.target_return_pct == target_of(target)
            &&& scenario.setup is None
        }),
        value.text_field("product"@) matches Some(name) ==> (value is Object && name
            != "LEVERAGE"@ && name != "INVERSE"@ ==> scenario_of(value) is None),
        value is Object && (value.field("triggerPrice"@) is None || value.field(
            "targetReturnPct"@,
        ) is None || value.field("product"@) is None) ==> scenario_of(value) is None,
{
    reveal_strlit("LEVERAGE");
    reveal_strlit("INVERSE");
    assert("LEVERAGE"@.len() != "INVERSE"@.len());
}

/// A decision has its scenarios in the order in which the reply lists them, each read by itself, and
/// is none where one cannot be read.
pub proof fn scenarios_are_read_in_order(values: Seq<JsonView>)
    ensures
        all_scenarios(values) matches Some(read) ==> read.len() == values.len() && forall|i: int|
            0 <= i < values.len() ==> scenario_of(#[trigger] values[i]) == Some(read[i]),
        all_scenarios(values) is None ==> exists|i: int|
            0 <= i < values.len() && scenario_of(#[trigger] values[i]) is None,
    decreases values.len(),
{
    if values.len() > 0 {
        let front = values.drop_last();
        scenarios_are_read_in_order(front);
        match all_scenarios(values) {
            Some(read) => {
                let rest = all_scenarios(front)->0;
                assert forall|i: int| 0 <= i < values.len() implies scenario_of(#[trigger] values[i])
                    == Some(read[i]) by {
                    if i < front.len() {
                        assert(front[i] == values[i]);
                        assert(read[i] == rest[i]);
                    }
                }
            },
            None => {
                if all_scenarios(front) is None {
                    let i = choose|i: int|
                        0 <= i < front.len() && scenario_of(#[trigger] front[i]) is None;
                    assert(values[i] == front[i]);
                } else {
                    assert(scenario_of(values[values.len() - 1]) is None);
                }
            },
        }
    }
}

/// A decision is that of the reply: it has the reply's id and tokens and the scenarios of the text
/// that the reply's output says, which repeats no name and holds no more than two.
pub proof fn decision_is_of_its_reply(value: JsonView, told: Seq<char>)
    ensures
        verdict(value, told) matches Verdict::Decision { id, scenarios, usage } ==> {
            &&& value.text_field("id"@) == Some(id)
            &&& value.field("error"@) is None || value.field("error"@) == Some(JsonView::Null)
            &&& value.field("usage"@) matches Some(told) && strict_usage(told) == Ok::<
                TokenUsage,
                OpenAiFault,
            >(usage)
            &&& value.list_field("output"@) matches Some(items) && (items_text(items) matches Ok(
                text,
            ) && !blank(text) && !repeats_a_name(text) && (json_of(text) matches Some(said)
                && decision_scenarios(said) == Some(scenarios)))
            &&& scenarios.len() <= 2
        },
        value.field("error"@) matches Some(error) ==> (error !is Null ==> (verdict(value, told)
            matches Verdict::Fault(OpenAiFault::Api(_)))),
        value.field("error"@) is None ==> (value.text_field("status"@) matches Some(status) ==> (
        status != "completed"@ ==> (verdict(value, told) matches Verdict::Fault(
            OpenAiFault::Incomplete(_),
        )))),
{
}

/// A question is asked only where its time is told, every quote has a code and positive finite prices,
/// both indicators are of their interval and usable, and the chart is a picture.
pub proof fn question_is_complete(input: DecisionInput)
    ensures
        input_fault(input) is None <==> !blank(input.as_of_kst@) && input.underlying.readable()
            && input.underlying.priced() && input.leverage.readable() && input.leverage.priced()
            && input.inverse.readable() && input.inverse.priced()
            && input.ten_minute.interval_minutes == 10 && input.ten_minute.usable()
            && input.fifteen_minute.interval_minutes == 15 && input.fifteen_minute.usable()
            && is_png(input.chart_png@),
        input.leverage.priced() ==> input.leverage.price.sign == Sign::Positive
            && input.leverage.ask1.sign == Sign::Positive && input.leverage.bid1.sign
            == Sign::Positive,
        input.ten_minute.usable() ==> input.ten_minute.current.close.sign == Sign::Positive
            && input.ten_minute.ma5.sign == Sign::Positive && input.ten_minute.ma20.sign
            == Sign::Positive && input.ten_minute.ma60.sign == Sign::Positive
            && input.ten_minute.ma120.sign == Sign::Positive,
        is_png(input.chart_png@) ==> input.chart_png@.len() >= 8 && input.chart_png@[0] == 0x89
            && input.chart_png@[1] == 0x50 && input.chart_png@[2] == 0x4e && input.chart_png@[3]
            == 0x47,
{
    if is_png(input.chart_png@) {
        let head = input.chart_png@.take(8);
        assert(head == png_signature());
        assert(head[0] == 0x89 && head[1] == 0x50 && head[2] == 0x4e && head[3] == 0x47);
    }
}

/// A quote is told under the names of what it says.
pub proof fn quote_is_told_by_name(quote: MarketQuoteInput)
    ensures
        ({
            let said = quote_said(quote);
            &&& said.text_field("code"@) == Some(quote.code@)
            &&& said.field("price"@) == Some(JsonView::Number(quote.price.text@))
            &&& said.field("changeRate"@) == Some(JsonView::Number(quote.change_rate.text@))
            &&& said.field("ask1"@) == Some(JsonView::Number(quote.ask1.text@))
            &&& said.field("bid1"@) == Some(JsonView::Number(quote.bid1.text@))
            &&& said.field("ask1Qty"@) == Some(JsonView::Number(digits(quote.ask1_qty as nat)))
            &&& said.field("bid1Qty"@) == Some(JsonView::Number(digits(quote.bid1_qty as nat)))
            &&& said.field("spread"@) == Some(JsonView::Number(quote.spread.text@))
        }),
{
    let said = quote_said(quote);
    let m = members_of(said);
    reveal_strlit("code");
    reveal_strlit("price");
    reveal_strlit("changeRate");
    reveal_strlit("ask1");
    reveal_strlit("bid1");
    reveal_strlit("ask1Qty");
    reveal_strlit("bid1Qty");
    reveal_strlit("spread");
    assert("code"@.len() == 4 && "price"@.len() == 5 && "changeRate"@.len() == 10 && "ask1"@.len()
        == 4 && "bid1"@.len() == 4 && "ask1Qty"@.len() == 7 && "bid1Qty"@.len() == 7
        && "spread"@.len() == 6);
    assert("code"@[0] == 'c' && "ask1"@[0] == 'a' && "bid1"@[0] == 'b' && "ask1Qty"@[0] == 'a'
        && "bid1Qty"@[0] == 'b');
    assert(m[0].0 == "code"@ && m[1].0 == "price"@ && m[2].0 == "changeRate"@ && m[3].0 == "ask1"@
        && m[4].0 == "bid1"@ && m[5].0 == "ask1Qty"@ && m[6].0 == "bid1Qty"@ && m[7].0
        == "spread"@);
    lemma_member_at(said, 0);
    lemma_member_at(said, 1);
    lemma_member_at(said, 2);
    lemma_member_at(said, 3);
    lemma_member_at(said, 4);
    lemma_member_at(said, 5);
    lemma_member_at(said, 6);
    lemma_member_at(said, 7);
}

/// A bar and an indicator are told under the names of what they say.
pub proof fn indicator_is_told_by_name(indicator: IndicatorInput)
    ensures
        ({
            let said = indicator_said(indicator);
            let bar = candle_said(indicator.current);
            &&& said.field("intervalMinutes"@) == Some(
                JsonView::Number(digits(indicator.interval_minutes as nat)),
            )
            &&& said.field("current"@) == Some(bar)
            &&& said.field("ma5"@) == Some(JsonView::Number(indicator.ma5.text@))
            &&& said.field("ma20"@) == Some(JsonView::Number(indicator.ma20.text@))
            &&& said.field("ma60"@) == Some(JsonView::Number(indicator.ma60.text@))
            &&& said.field("ma120"@) == Some(JsonView::Number(indicator.ma120.text@))
            &&& bar.field("open"@) == Some(JsonView::Number(indicator.current.open.text@))
            &&& bar.field("high"@) == Some(JsonView::Number(indicator.current.high.text@))
            &&& bar.field("low"@) == Some(JsonView::Number(indicator.current.low.text@))
            &&& bar.field("close"@) == Some(JsonView::Number(indicator.current.close.text@))
            &&& bar.field("volume"@) == Some(JsonView::Number(indicator.current.volume.text@))
        }),
{
    let said = indicator_said(indicator);
    let m = members_of(said);
    reveal_strlit("intervalMinutes");
    reveal_strlit("current");
    reveal_strlit("ma5");
    reveal_strlit("ma20");
    reveal_strlit("ma60");
    reveal_strlit("ma120");
    assert("intervalMinutes"@.len() == 15 && "current"@.len() == 7 && "ma5"@.len() == 3
        && "ma20"@.len() == 4 && "ma60"@.len() == 4 && "ma120"@.len() == 5);
    assert("ma20"@[2] == '2' && "ma60"@[2] == '6');
    assert(m[0].0 == "intervalMinutes"@ && m[1].0 == "current"@ && m[2].0 == "ma5"@ && m[3].0
        == "ma20"@ && m[4].0 == "ma60"@ && m[5].0 == "ma120"@);
    lemma_member_at(said, 0);
    lemma_member_at(said, 1);
    lemma_member_at(said, 2);
    lemma_member_at(said, 3);
    lemma_member_at(said, 4);
    lemma_member_at(said, 5);
    let bar = candle_said(indicator.current);
    let b = members_of(bar);
    reveal_strlit("time");
    reveal_strlit("open");
    reveal_strlit("high");
    reveal_strlit("low");
    reveal_strlit("close");
    reveal_strlit("volume");
    assert("time"@.len() == 4 && "open"@.len() == 4 && "high"@.len() == 4 && "low"@.len() == 3
        && "close"@.len() == 5 && "volume"@.len() == 6);
    assert("time"@[0] == 't' && "open"@[0] == 'o' && "high"@[0] == 'h');
    assert(b[0].0 == "time"@ && b[1].0 == "open"@ && b[2].0 == "high"@ && b[3].0 == "low"@ && b[4].0
        == "close"@ && b[5].0 == "volume"@);
    lemma_member_at(bar, 1);
    lemma_member_at(bar, 2);
    lemma_member_at(bar, 3);
    lemma_member_at(bar, 4);
    lemma_member_at(bar, 5);
}

/// The question tells each quote and each indicator under its own name.
pub proof fn question_is_told_by_name(input: DecisionInput)
    ensures
        ({
            let said = input_said(input);
            &&& said.text_field("asOfKst"@) == Some(input.as_of_kst@)
            &&& said.nested("quotes"@, "skHynix"@) == Some(quote_said(input.underlying))
            &&& said.nested("quotes"@, "leverageEtf"@) == Some(quote_said(input.leverage))
            &&& said.nested("quotes"@, "inverseEtf"@) == Some(quote_said(input.inverse))
            &&& said.nested("indicators"@, "tenMinute"@) == Some(indicator_said(input.ten_minute))
            &&& said.nested("indicators"@, "fifteenMinute"@) == Some(
                indicator_said(input.fifteen_minute),
            )
        }),
{
    let said = input_said(input);
    let m = members_of(said);
    reveal_strlit("asOfKst");
    reveal_strlit("quotes");
    reveal_strlit("indicators");
    reveal_strlit("skHynix");
    reveal_strlit("leverageEtf");
    reveal_strlit("inverseEtf");
    reveal_strlit("tenMinute");
    reveal_strlit("fifteenMinute");
    assert("asOfKst"@.len() == 7 && "quotes"@.len() == 6 && "indicators"@.len() == 10);
    assert("skHynix"@.len() == 7 && "leverageEtf"@.len() == 11 && "inverseEtf"@.len() == 10);
    assert("tenMinute"@.len() == 9 && "fifteenMinute"@.len() == 13);
    assert(m[0].0 == "asOfKst"@ && m[1].0 == "quotes"@ && m[2].0 == "indicators"@);
    lemma_member_at(said, 0);
    lemma_member_at(said, 1);
    lemma_member_at(said, 2);
    let quotes = m[1].1;
    let q = members_of(quotes);
    assert(q[0].0 == "skHynix"@ && q[1].0 == "leverageEtf"@ && q[2].0 == "inverseEtf"@);
    lemma_member_at(quotes, 0);
    lemma_member_at(quotes, 1);
    lemma_member_at(quotes, 2);
    let indicators = m[2].1;
    let d = members_of(indicators);
    assert(d[0].0 == "tenMinute"@ && d[1].0 == "fifteenMinute"@);
    lemma_member_at(indicators, 0);
    lemma_member_at(indicators, 1);
}

/// A measured number is written so that it reads back, with a point in it, and has the sign that it
/// is told with.
pub proof fn measure_has_a_point(n: int)
    ensures
        n % 1_000_000_000 == 0 ==> point_text(n) == plain_text(n) + seq!['.', '0'],
        n % 1_000_000_000 != 0 ==> point_text(n) == plain_text(n),
{
    reveal_strlit(".0");
    assert(".0"@ =~= seq!['.', '0']);
}

/// What an error quotes of a reply is short, and is what the reply itself says of the error where it
/// says it.
pub proof fn error_quotes_little(value: Option<JsonView>, body: Seq<char>, text: Seq<char>)
    ensures
        value is None ==> status_text(value, body).len() <= 500,
        value is None && 0 < trimmed(body).len() <= 500 ==> status_text(value, body) == trimmed(
            body,
        ),
        value matches Some(v) ==> (v.field("error"@) matches Some(e) ==> (e.text_field("message"@)
            == Some(text) ==> status_text(value, body) == text)),
{
    reveal_strlit("응답 본문 없음");
}

/// A question is sent to the model by its name, is not kept, and holds what is told and shown behind
/// the fixed words.
pub proof fn request_is_told_by_name(text: Seq<char>, image_url: Seq<char>)
    ensures
        ({
            let said = request_said(text, image_url);
            &&& said.text_field("model"@) == Some(MODEL@)
            &&& said.field("store"@) == Some(JsonView::Bool(false))
            &&& said.field("max_output_tokens"@) == Some(JsonView::Number("4096"@))
            &&& said.list_field("input"@) matches Some(messages) && {
                &&& messages.len() == 2
                &&& messages[0] == message_said("system"@, seq![input_text_said(SYSTEM_PROMPT@)])
                &&& messages[1] == message_said(
                    "user"@,
                    seq![input_text_said(text), input_image_said(image_url)],
                )
            }
        }),
{
    let said = request_said(text, image_url);
    let m = members_of(said);
    reveal_strlit("model");
    reveal_strlit("reasoning");
    reveal_strlit("store");
    reveal_strlit("text");
    reveal_strlit("max_output_tokens");
    reveal_strlit("input");
    assert("model"@.len() == 5 && "reasoning"@.len() == 9 && "store"@.len() == 5 && "text"@.len()
        == 4 && "max_output_tokens"@.len() == 17 && "input"@.len() == 5);
    assert("model"@[0] == 'm' && "store"@[0] == 's' && "input"@[0] == 'i');
    assert(m[0].0 == "model"@ && m[1].0 == "reasoning"@ && m[2].0 == "store"@ && m[3].0 == "text"@
        && m[4].0 == "max_output_tokens"@ && m[5].0 == "input"@);
    lemma_member_at(said, 0);
    lemma_member_at(said, 2);
    lemma_member_at(said, 4);
    lemma_member_at(said, 5);
}

/// A target that is written in full, to a billionth of a percent, is read as it is written.
pub proof fn exact_targets_are_read_as_written(whole: Seq<char>, fraction: Seq<char>)
    requires
        figures(whole),
        figures(fraction),
        whole.len() > 0,
        fraction.len() <= 9,
        number(whole) * 1_000_000_000 + number(fraction) * ten((9 - fraction.len()) as nat)
            <= i64::MAX,
    ensures
        target_of(whole.push('.') + fraction) == Some(
            (number(whole) * 1_000_000_000 + number(fraction) * ten(
                (9 - fraction.len()) as nat,
            )) as i64,
        ),
{
    decimals_are_read(whole, fraction);
}

} // verus!
