//! Requests to the broker's gateway: how often they go out, when they go out again, and how replies
//! are read.

use vstd::prelude::*;

use crate::error::{is_config, is_kis, AppError, AppResult, OrderRejection};
use crate::json::{json_of, read_json, Json, JsonView};
use crate::settings::Settings;
use crate::text::{chars_of, contains, has_part, joined, trim, trimmed};
use crate::types::Nanos;

verus! {

pub const REAL_BASE: &'static str = "https://openapi.koreainvestment.com:9443";

pub const REAL_WS: &'static str = "ws://ops.koreainvestment.com:21000";

/// The least time between two requests: no second sees more than nine of them.
pub const REAL_MIN_GAP: Nanos = 120_000_000;

/// How long all requests wait after an order met the rate limit. The order itself is not sent
/// again.
pub const POST_RATE_LIMIT_COOLDOWN: Nanos = 1_000_000_000;

/// A reply, and the header that says whether more follows.
#[derive(Debug)]
pub struct RestPage {
    pub body: Json,
    pub tr_cont: String,
}

/// A name and a value of a request.
pub type Param = (&'static str, String);

pub open spec fn param_views(params: Seq<Param>) -> Seq<(Seq<char>, Seq<char>)> {
    params.map_values(|p: Param| (p.0@, p.1@))
}

pub fn param(name: &'static str, value: &str) -> (p: Param)
    ensures
        p.0@ == name@,
        p.1@ == value@,
{
    (name, value.to_owned())
}

/// Spaces requests evenly.
///
/// The gateway counts by whole seconds, so that a window that slides would let bursts pass where
/// one second ends and the next begins. A gap between any two requests does not.
#[derive(Debug)]
pub struct RateLimiter {
    next_slot: Nanos,
    blocked_until: Nanos,
    min_gap: Nanos,
}

#[verifier::ext_equal]
pub struct LimiterView {
    /// When the next request may go out.
    pub next_slot: Nanos,
    /// Until when all requests wait because one met the rate limit.
    pub blocked_until: Nanos,
    pub min_gap: Nanos,
}

impl View for RateLimiter {
    type V = LimiterView;

    closed spec fn view(&self) -> LimiterView {
        LimiterView {
            next_slot: self.next_slot,
            blocked_until: self.blocked_until,
            min_gap: self.min_gap,
        }
    }
}

pub open spec fn later(a: Nanos, b: Nanos) -> Nanos {
    if a >= b {
        a
    } else {
        b
    }
}

impl LimiterView {
    pub open spec fn due(self) -> Nanos {
        later(self.next_slot, self.blocked_until)
    }

    /// After a request was let out.
    pub open spec fn granted(self, now: Nanos) -> LimiterView {
        LimiterView { next_slot: (now + self.min_gap) as Nanos, ..self }
    }

    /// After a request was asked for.
    pub open spec fn asked(self, now: Nanos) -> LimiterView {
        if self.due() <= now {
            self.granted(now)
        } else {
            self
        }
    }

    /// After all requests were told to wait.
    pub open spec fn deferred(self, now: Nanos, span: Nanos) -> LimiterView {
        LimiterView { blocked_until: later(self.blocked_until, (now + span) as Nanos), ..self }
    }
}

impl RateLimiter {
    pub fn new(min_gap: Nanos, now: Nanos) -> (limiter: Self)
        ensures
            limiter@ == (LimiterView { next_slot: now, blocked_until: now, min_gap }),
    {
        RateLimiter { next_slot: now, blocked_until: now, min_gap }
    }

    /// Asks to send a request now. `None` lets it out, and another time says when to ask again.
    ///
    /// The next gap begins at the time at which a request is let out, not at the one it waited for,
    /// so that requests that wake late do not go out together.
    pub fn acquire(&mut self, now: Nanos) -> (wait_until: Option<Nanos>)
        requires
            now + old(self)@.min_gap <= u128::MAX,
        ensures
            final(self)@ == old(self)@.asked(now),
            wait_until == (if old(self)@.due() <= now {
                None
            } else {
                Some(old(self)@.due())
            }),
    {
        let due: Nanos = if self.next_slot >= self.blocked_until {
            self.next_slot
        } else {
            self.blocked_until
        };
        if due <= now {
            self.next_slot = now + self.min_gap;
            None
        } else {
            Some(due)
        }
    }

    /// Makes all requests wait for a while.
    pub fn defer_for(&mut self, now: Nanos, span: Nanos)
        requires
            now + span <= u128::MAX,
        ensures
            final(self)@ == old(self)@.deferred(now, span),
    {
        let until: Nanos = now + span;
        if self.blocked_until < until {
            self.blocked_until = until;
        }
    }
}

/// After a request was let out, none goes out before the gap is over, nor, where all were told to
/// wait in between, before that time is.
pub proof fn requests_keep_their_distance(
    limiter: LimiterView,
    first: Nanos,
    told: Nanos,
    span: Nanos,
    second: Nanos,
)
    requires
        first + limiter.min_gap <= u128::MAX,
        told + span <= u128::MAX,
    ensures
        limiter.granted(first).due() <= second ==> second >= first + limiter.min_gap,
        limiter.granted(first).deferred(told, span).due() <= second ==> second >= first
            + limiter.min_gap && second >= told + span,
{
}

/// Times each of which is at least a gap after the one before.
pub open spec fn spaced(times: Seq<Nanos>, gap: Nanos) -> bool {
    forall|i: int|
        0 <= i < times.len() - 1 ==> #[trigger] times[i] + gap <= times[i + 1]
}

pub proof fn lemma_spaced(times: Seq<Nanos>, gap: Nanos, i: int, n: nat)
    requires
        spaced(times, gap),
        0 <= i,
        i + n < times.len(),
    ensures
        times[i] + n * gap <= times[i + n],
    decreases n,
{
    if n > 0 {
        lemma_spaced(times, gap, i, (n - 1) as nat);
        let before = times[i + n - 1];
        assert(times[i + (n - 1)] + gap <= times[i + (n - 1) + 1]);
        assert(n * gap == (n - 1) * gap + gap) by (nonlinear_arith);
    }
}

/// Requests at the real gap never come to ten within one second.
pub proof fn at_most_nine_a_second(times: Seq<Nanos>, i: int)
    requires
        spaced(times, REAL_MIN_GAP),
        0 <= i,
        i + 9 < times.len(),
    ensures
        times[i + 9] >= times[i] + 1_000_000_000,
{
    lemma_spaced(times, REAL_MIN_GAP, i, 9);
}

/// Whether a message is of the rate limit.
pub open spec fn rate_limited(text: Seq<char>) -> bool {
    contains(text, "EGW00201"@) || contains(text, "초당 거래건수"@)
}

/// Whether a message is of the rate limit.
pub fn is_rate_limit_error(msg: &str) -> (yes: bool)
    ensures
        yes == rate_limited(msg@),
{
    has_part(msg, "EGW00201") || has_part(msg, "초당 거래건수")
}

/// A character with a capital of the English alphabet made small.
pub open spec fn small(ch: char) -> char {
    if 'A' <= ch <= 'Z' {
        (ch as u32 + 32) as char
    } else {
        ch
    }
}

fn to_small(ch: char) -> (result: char)
    ensures
        result == small(ch),
{
    if ch < 'A' || ch > 'Z' {
        return ch;
    }
    match ch {
        'A' => 'a',
        'B' => 'b',
        'C' => 'c',
        'D' => 'd',
        'E' => 'e',
        'F' => 'f',
        'G' => 'g',
        'H' => 'h',
        'I' => 'i',
        'J' => 'j',
        'K' => 'k',
        'L' => 'l',
        'M' => 'm',
        'N' => 'n',
        'O' => 'o',
        'P' => 'p',
        'Q' => 'q',
        'R' => 'r',
        'S' => 's',
        'T' => 't',
        'U' => 'u',
        'V' => 'v',
        'W' => 'w',
        'X' => 'x',
        'Y' => 'y',
        _ => 'z',
    }
}

/// A text with the capitals of the English alphabet made small.
pub open spec fn lowered(text: Seq<char>) -> Seq<char> {
    text.map_values(|ch: char| small(ch))
}

fn lower_text(text: &str) -> (result: String)
    ensures
        result@ == lowered(text@),
{
    let chars = chars_of(text);
    let mut result = String::new();
    let mut i: usize = 0;
    while i < chars.len()
        invariant
            i <= chars@.len(),
            chars@ == text@,
            result@ == lowered(text@).take(i as int),
        decreases chars@.len() - i,
    {
        result.push(to_small(chars[i]));
        i += 1;
        assert(lowered(text@).take(i as int) =~= lowered(text@).take(i - 1).push(
            lowered(text@)[i - 1],
        ));
    }
    assert(lowered(text@).take(i as int) =~= lowered(text@));
    result
}

/// Whether a message is of a token whose time is over.
pub open spec fn token_expired(text: Seq<char>) -> bool {
    let small_text = lowered(text);
    ||| contains(small_text, "egw00123"@)
    ||| contains(small_text, "만료된 token"@)
    ||| contains(small_text, "token이 만료"@)
    ||| contains(small_text, "token 이 만료"@)
    ||| contains(small_text, "token has expired"@)
    ||| contains(small_text, "expired token"@)
}

/// Whether a message is of a token whose time is over.
pub fn is_token_expired_error(msg: &str) -> (yes: bool)
    ensures
        yes == token_expired(msg@),
{
    let text = lower_text(msg);
    has_part(text.as_str(), "egw00123") || has_part(text.as_str(), "만료된 token") || has_part(
        text.as_str(),
        "token이 만료",
    ) || has_part(text.as_str(), "token 이 만료") || has_part(text.as_str(), "token has expired")
        || has_part(text.as_str(), "expired token")
}

/// What a request needs besides a token.
#[derive(Debug)]
pub struct KisRest {
    pub base: String,
    pub app_key: String,
    pub app_secret: String,
}

impl KisRest {
    /// Connects to real trading, once the user has agreed to it and there are keys.
    pub fn new(settings: &Settings) -> (rest: AppResult<KisRest>)
        ensures
            match rest {
                Ok(rest) => {
                    &&& settings@.real_trading_confirmed
                    &&& settings@.app_key.len() > 0 && settings@.app_secret.len() > 0
                    &&& rest.base@ == REAL_BASE@
                    &&& rest.app_key@ == settings@.app_key
                    &&& rest.app_secret@ == settings@.app_secret
                },
                Err(error) => if !settings@.real_trading_confirmed {
                    is_config(error, "실전 연결 확인이 필요합니다"@)
                } else {
                    &&& settings@.app_key.len() == 0 || settings@.app_secret.len() == 0
                    &&& is_config(error, "APP KEY/SECRET이 설정되지 않았습니다"@)
                },
            },
    {
        if !settings.real_trading_confirmed {
            return Err(AppError::Config("실전 연결 확인이 필요합니다".to_owned()));
        }
        if settings.app_key.as_str().unicode_len() == 0
            || settings.app_secret.as_str().unicode_len() == 0 {
            return Err(
                AppError::Config("APP KEY/SECRET이 설정되지 않았습니다".to_owned()),
            );
        }
        Ok(
            KisRest {
                base: REAL_BASE.to_owned(),
                app_key: settings.app_key.clone(),
                app_secret: settings.app_secret.clone(),
            },
        )
    }

    pub fn ws_url(&self) -> (url: &'static str)
        ensures
            url@ == REAL_WS@,
    {
        REAL_WS
    }

    /// The headers of a request. What follows a page is asked for by one more.
    pub fn headers(&self, bearer: &str, tr_id: &str, tr_cont: Option<&str>) -> (headers: Vec<Param>)
        ensures
            param_views(headers@) == ({
                let common = seq![
                    ("authorization"@, "Bearer "@ + bearer@),
                    ("appkey"@, self.app_key@),
                    ("appsecret"@, self.app_secret@),
                    ("tr_id"@, tr_id@),
                    ("custtype"@, "P"@),
                ];
                match tr_cont {
                    Some(cont) => if cont@.len() > 0 {
                        common.push(("tr_cont"@, cont@))
                    } else {
                        common
                    },
                    None => common,
                }
            }),
    {
        let mut headers: Vec<Param> = Vec::new();
        headers.push(("authorization", joined("Bearer ", bearer)));
        headers.push(param("appkey", self.app_key.as_str()));
        headers.push(param("appsecret", self.app_secret.as_str()));
        headers.push(param("tr_id", tr_id));
        headers.push(param("custtype", "P"));
        let ghost common = param_views(headers@);
        assert(common =~= seq![
            ("authorization"@, "Bearer "@ + bearer@),
            ("appkey"@, self.app_key@),
            ("appsecret"@, self.app_secret@),
            ("tr_id"@, tr_id@),
            ("custtype"@, "P"@),
        ]);
        if let Some(cont) = tr_cont {
            if cont.unicode_len() > 0 {
                headers.push(param("tr_cont", cont));
                assert(param_views(headers@) =~= common.push(("tr_cont"@, cont@)));
            }
        }
        headers
    }

    /// Whether the broker carried out what was asked; if not, its message is the error.
    pub fn check_rt(v: &Json) -> (result: AppResult<()>)
        ensures
            checked(v@, result),
    {
        if v.field_is("rt_cd", "0") {
            return Ok(());
        }
        let message = match v.get_str("msg1") {
            Some(text) => trim(text),
            None => trim("알 수 없는 KIS 오류"),
        };
        Err(AppError::Kis(message))
    }

    /// What an order's reply comes to. A reply of the rate limit settles that the gateway did not
    /// take the order in; a lost connection or an unreadable reply settles nothing.
    pub fn classify_post_result(result: AppResult<Json>) -> (classified: AppResult<Json>)
        ensures
            match result {
                Err(AppError::Kis(text)) => if rate_limited(text@) {
                    classified matches Err(AppError::Order(rejection)) && {
                        &&& rejection.code_spec() is Some
                        &&& rejection.code_spec()->0@ == "EGW00201"@
                        &&& rejection.message_spec()
                            == "KIS 게이트웨이 유량 제한으로 요청이 접수되지 않았습니다: "@ + text@
                    }
                } else {
                    classified == result
                },
                _ => classified == result,
            },
    {
        match result {
            Err(AppError::Kis(text)) => {
                if is_rate_limit_error(text.as_str()) {
                    let code = "EGW00201".to_owned();
                    proof {
                        reveal_strlit("EGW00201");
                        assert(!crate::text::white(code@[0]));
                    }
                    let message = joined(
                        "KIS 게이트웨이 유량 제한으로 요청이 접수되지 않았습니다: ",
                        text.as_str(),
                    );
                    Err(AppError::Order(OrderRejection::kis(Some(code), message.as_str())))
                } else {
                    Err(AppError::Kis(text))
                }
            },
            other => other,
        }
    }
}

/// What the broker's result code comes to.
pub open spec fn checked(v: JsonView, result: AppResult<()>) -> bool {
    match result {
        Ok(_) => v.text_field("rt_cd"@) == Some("0"@),
        Err(error) => {
            &&& v.text_field("rt_cd"@) != Some("0"@)
            &&& is_kis(
                error,
                match v.text_field("msg1"@) {
                    Some(text) => trimmed(text),
                    None => trimmed("알 수 없는 KIS 오류"@),
                },
            )
        },
    }
}

/// What a reply comes to, given what its text reads as: the JSON where the request was answered
/// well, and else an error with the status and the broker's message, or all of the text where there
/// is none.
pub open spec fn answered(
    result: AppResult<Json>,
    code: u16,
    status: Seq<char>,
    text: Seq<char>,
    value: Option<JsonView>,
) -> bool {
    match value {
        Some(v) => if 200 <= code < 300 {
            result matches Ok(read) && read@ == v
        } else {
            result matches Err(error) && is_kis(
                error,
                "HTTP "@ + status + ": "@ + trimmed(
                    match v.text_field("msg1"@) {
                        Some(message) => message,
                        None => text,
                    },
                ),
            )
        },
        None => result matches Err(error) && is_kis(error, "HTTP "@ + status + ": "@ + text),
    }
}

/// Reads a reply.
pub fn read_response(code: u16, status: &str, text: &str) -> (result: AppResult<Json>)
    ensures
        answered(result, code, status@, text@, json_of(text@)),
{
    match read_json(text) {
        Ok(value) => settle_response(code, status, text, Some(value)),
        Err(_) => settle_response(code, status, text, None),
    }
}

/// Settles a reply, given what its text reads as.
pub fn settle_response(code: u16, status: &str, text: &str, value: Option<Json>) -> (result:
    AppResult<Json>)
    ensures
        answered(
            result,
            code,
            status@,
            text@,
            match value {
                Some(v) => Some(v@),
                None => None,
            },
        ),
{
    let mut message = joined("HTTP ", status);
    message.append(": ");
    match value {
        Some(v) => {
            if 200 <= code && code < 300 {
                return Ok(v);
            }
            let told = match v.get_str("msg1") {
                Some(told) => trim(told),
                None => trim(text),
            };
            message.append(told.as_str());
        },
        None => {
            message.append(text);
        },
    }
    Err(AppError::Kis(message))
}

/// What to do after a query was answered.
#[derive(Debug, Clone, Copy, PartialEq, Eq, Structural)]
pub enum GetStep {
    /// Hand the answer on.
    Return,
    /// Drop the token that was used and ask again.
    RefreshToken,
    /// Make all requests wait for so long, and ask again.
    Defer(Nanos),
}

/// How often a query was asked again. Asking again is safe, because a query changes nothing.
#[derive(Debug, Clone, Copy, PartialEq, Eq, Structural)]
pub struct GetRetry {
    pub rate_limit_attempt: u32,
    pub token_refresh_attempted: bool,
}

/// The wait after so many rate limits: half a second, doubled each time.
pub open spec fn backoff(attempt: u32) -> Nanos {
    if attempt == 0 {
        500_000_000
    } else if attempt == 1 {
        1_000_000_000
    } else if attempt == 2 {
        2_000_000_000
    } else {
        4_000_000_000
    }
}

impl GetRetry {
    pub open spec fn step(self, error: Option<Seq<char>>) -> GetStep {
        match error {
            Some(text) => if token_expired(text) && !self.token_refresh_attempted {
                GetStep::RefreshToken
            } else if rate_limited(text) && self.rate_limit_attempt < 4 {
                GetStep::Defer(backoff(self.rate_limit_attempt))
            } else {
                GetStep::Return
            },
            None => GetStep::Return,
        }
    }

    pub open spec fn stepped(self, error: Option<Seq<char>>) -> GetRetry {
        match self.step(error) {
            GetStep::Return => self,
            GetStep::RefreshToken => GetRetry { token_refresh_attempted: true, ..self },
            GetStep::Defer(_) => GetRetry {
                rate_limit_attempt: (self.rate_limit_attempt + 1) as u32,
                ..self
            },
        }
    }

    /// How often the query may still be asked again.
    pub open spec fn left(self) -> int {
        (if self.token_refresh_attempted {
            0int
        } else {
            1int
        }) + (if self.rate_limit_attempt < 4 {
            4 - self.rate_limit_attempt
        } else {
            0int
        })
    }

    pub fn new() -> (retry: Self)
        ensures
            retry.rate_limit_attempt == 0,
            !retry.token_refresh_attempted,
    {
        GetRetry { rate_limit_attempt: 0, token_refresh_attempted: false }
    }

    /// Takes in an answer: the broker's message, where it was an error of the broker's.
    pub fn after(&mut self, error: Option<&str>) -> (step: GetStep)
        ensures
            step == old(self).step(message_of(error)),
            *final(self) == old(self).stepped(message_of(error)),
    {
        match error {
            Some(text) => {
                if !self.token_refresh_attempted && is_token_expired_error(text) {
                    self.token_refresh_attempted = true;
                    GetStep::RefreshToken
                } else if self.rate_limit_attempt < 4 && is_rate_limit_error(text) {
                    let wait: Nanos = match self.rate_limit_attempt {
                        0 => 500_000_000,
                        1 => 1_000_000_000,
                        2 => 2_000_000_000,
                        _ => 4_000_000_000,
                    };
                    self.rate_limit_attempt = self.rate_limit_attempt + 1;
                    GetStep::Defer(wait)
                } else {
                    GetStep::Return
                }
            },
            None => GetStep::Return,
        }
    }
}

pub open spec fn message_of(error: Option<&str>) -> Option<Seq<char>> {
    match error {
        Some(text) => Some(text@),
        None => None,
    }
}

/// The broker's message, where a result is an error of the broker's.
pub fn kis_message<T>(result: &AppResult<T>) -> (message: Option<&str>)
    ensures
        message_of(message) == (match *result {
            Err(AppError::Kis(text)) => Some(text@),
            _ => None,
        }),
{
    match result {
        Err(AppError::Kis(text)) => Some(text.as_str()),
        _ => None,
    }
}

/// A query is asked again five times at most: each time uses one up.
pub proof fn queries_end(retry: GetRetry, error: Option<Seq<char>>)
    ensures
        retry.step(error) == GetStep::Return ==> retry.stepped(error) == retry,
        retry.step(error) != GetStep::Return ==> retry.stepped(error).left() == retry.left() - 1,
        0 <= retry.left() <= 5,
{
}

/// What to do after an order was answered.
#[derive(Debug, Clone, Copy, PartialEq, Eq, Structural)]
pub enum PostStep {
    /// Hand the answer on.
    Return,
    /// Make all requests wait, and hand the answer on.
    CoolDown,
    /// Drop the token that was used and send the order again. A request that was turned away for its
    /// token was not taken in, so that this orders nothing twice.
    RefreshToken,
}

/// Whether an order was sent again.
#[derive(Debug, Clone, Copy, PartialEq, Eq, Structural)]
pub struct PostRetry {
    pub token_refresh_attempted: bool,
}

impl PostRetry {
    pub open spec fn step(self, error: Option<Seq<char>>) -> PostStep {
        match error {
            Some(text) => if token_expired(text) && !self.token_refresh_attempted {
                PostStep::RefreshToken
            } else if rate_limited(text) {
                PostStep::CoolDown
            } else {
                PostStep::Return
            },
            None => PostStep::Return,
        }
    }

    pub fn new() -> (retry: Self)
        ensures
            !retry.token_refresh_attempted,
    {
        PostRetry { token_refresh_attempted: false }
    }

    /// Takes in an answer: the broker's message, where it was an error of the broker's.
    pub fn after(&mut self, error: Option<&str>) -> (step: PostStep)
        ensures
            step == old(self).step(message_of(error)),
            final(self).token_refresh_attempted == (old(self).token_refresh_attempted || step
                == PostStep::RefreshToken),
    {
        match error {
            Some(text) => {
                if !self.token_refresh_attempted && is_token_expired_error(text) {
                    self.token_refresh_attempted = true;
                    PostStep::RefreshToken
                } else if is_rate_limit_error(text) {
                    PostStep::CoolDown
                } else {
                    PostStep::Return
                }
            },
            None => PostStep::Return,
        }
    }
}

/// An order is sent again only after a token was turned away, and once at most: whatever comes
/// back to the second, and any answer that is not of a token, ends it.
pub proof fn orders_are_not_repeated(retry: PostRetry, error: Option<Seq<char>>)
    ensures
        retry.step(error) == PostStep::RefreshToken ==> !retry.token_refresh_attempted
            && error is Some && token_expired(error->0),
        (PostRetry { token_refresh_attempted: true }).step(error) != PostStep::RefreshToken,
{
}

} // verus!
