//! What the ledger refuses, and the key of a broker's order.

use vstd::prelude::*;

use crate::clock::{date_text, is_date, on_calendar, parsed_date, written_date};
use crate::ledger::records::{NewDecisionScenario, ScenarioSeedView};
use crate::tables::rows;
use crate::text::{blank, is_blank, joined, signed_decimal, signed_digits};

verus! {

/// Rows on a page where none are asked for.
pub const DEFAULT_PAGE_SIZE: usize = 50;

/// Most rows on a page.
pub const MAX_PAGE_SIZE: usize = 200;

#[derive(Debug, PartialEq, Eq)]
pub enum LedgerError {
    Io(String),
    Sql(String),
    Json(String),
    UnsupportedSchema(i64),
    OutOfRange(&'static str),
    NotFound(String),
    InvalidInput(String),
    LockPoisoned,
}

pub type LedgerResult<T> = Result<T, LedgerError>;

/// What an error says.
#[verifier::ext_equal]
pub enum LedgerFault {
    Io(Seq<char>),
    Sql(Seq<char>),
    Json(Seq<char>),
    UnsupportedSchema(i64),
    OutOfRange(Seq<char>),
    NotFound(Seq<char>),
    InvalidInput(Seq<char>),
    LockPoisoned,
}

impl View for LedgerError {
    type V = LedgerFault;

    open spec fn view(&self) -> LedgerFault {
        match self {
            LedgerError::Io(text) => LedgerFault::Io(text@),
            LedgerError::Sql(text) => LedgerFault::Sql(text@),
            LedgerError::Json(text) => LedgerFault::Json(text@),
            LedgerError::UnsupportedSchema(version) => LedgerFault::UnsupportedSchema(*version),
            LedgerError::OutOfRange(field) => LedgerFault::OutOfRange(field@),
            LedgerError::NotFound(text) => LedgerFault::NotFound(text@),
            LedgerError::InvalidInput(text) => LedgerFault::InvalidInput(text@),
            LedgerError::LockPoisoned => LedgerFault::LockPoisoned,
        }
    }
}

impl LedgerFault {
    pub open spec fn shown(self) -> Seq<char> {
        match self {
            LedgerFault::Io(text) => "장부 디렉터리를 준비하지 못했습니다: "@ + text,
            LedgerFault::Sql(text) => "장부 데이터베이스 오류: "@ + text,
            LedgerFault::Json(text) => "장부 JSON 변환 오류: "@ + text,
            LedgerFault::UnsupportedSchema(version) => "지원하지 않는 장부 스키마 버전입니다: "@
                + signed_digits(version as int),
            LedgerFault::OutOfRange(field) => "장부 값이 허용 범위를 벗어났습니다: "@ + field,
            LedgerFault::NotFound(text) => "장부 레코드를 찾지 못했습니다: "@ + text,
            LedgerFault::InvalidInput(text) => "잘못된 장부 입력입니다: "@ + text,
            LedgerFault::LockPoisoned => "장부 잠금이 손상되었습니다"@,
        }
    }
}

impl LedgerError {
    /// The error as it is shown.
    pub fn text(&self) -> (text: String)
        ensures
            text@ == self@.shown(),
    {
        match self {
            LedgerError::Io(text) => joined("장부 디렉터리를 준비하지 못했습니다: ", text.as_str()),
            LedgerError::Sql(text) => joined("장부 데이터베이스 오류: ", text.as_str()),
            LedgerError::Json(text) => joined("장부 JSON 변환 오류: ", text.as_str()),
            LedgerError::UnsupportedSchema(version) => joined(
                "지원하지 않는 장부 스키마 버전입니다: ",
                signed_decimal(*version).as_str(),
            ),
            LedgerError::OutOfRange(field) => joined("장부 값이 허용 범위를 벗어났습니다: ", field),
            LedgerError::NotFound(text) => joined("장부 레코드를 찾지 못했습니다: ", text.as_str()),
            LedgerError::InvalidInput(text) => joined("잘못된 장부 입력입니다: ", text.as_str()),
            LedgerError::LockPoisoned => "장부 잠금이 손상되었습니다".to_owned(),
        }
    }
}

/// The outcome of a check: nothing where there is no fault, and else the fault.
pub open spec fn checked(result: Result<(), LedgerError>, fault: Option<LedgerFault>) -> bool {
    match result {
        Ok(_) => fault is None,
        Err(error) => fault == Some(error@),
    }
}

/// The first of two faults.
pub open spec fn first_fault(a: Option<LedgerFault>, b: Option<LedgerFault>) -> Option<LedgerFault> {
    if a is Some {
        a
    } else {
        b
    }
}

/// An identifier must say something.
pub open spec fn id_fault(field: Seq<char>, value: Seq<char>) -> Option<LedgerFault> {
    if blank(value) {
        Some(LedgerFault::InvalidInput(field + "는 비어 있을 수 없습니다"@))
    } else {
        None
    }
}

pub fn validate_id(field: &'static str, value: &str) -> (result: LedgerResult<()>)
    ensures
        checked(result, id_fault(field@, value@)),
{
    if is_blank(value) {
        return Err(LedgerError::InvalidInput(joined(field, "는 비어 있을 수 없습니다")));
    }
    Ok(())
}

/// The trading date of a wall-clock time.
pub open spec fn date_fault(at: int) -> Option<LedgerFault> {
    if on_calendar(at) {
        None
    } else {
        Some(
            LedgerFault::InvalidInput(
                "거래 시각을 날짜로 변환할 수 없습니다: "@ + signed_digits(at),
            ),
        )
    }
}

pub fn trading_date_from_fake_epoch(timestamp: i64) -> (result: LedgerResult<String>)
    ensures
        match result {
            Ok(date) => date_fault(timestamp as int) is None && date@ == written_date(
                timestamp as int,
            ),
            Err(error) => date_fault(timestamp as int) == Some(error@),
        },
{
    match date_text(timestamp) {
        Some(date) => Ok(date),
        None => Err(
            LedgerError::InvalidInput(
                joined(
                    "거래 시각을 날짜로 변환할 수 없습니다: ",
                    signed_decimal(timestamp).as_str(),
                ),
            ),
        ),
    }
}

/// A trading date must be one.
pub open spec fn day_fault(trading_date: Seq<char>) -> Option<LedgerFault> {
    if parsed_date(trading_date) is Some {
        None
    } else {
        Some(
            LedgerFault::InvalidInput("거래일은 YYYYMMDD 형식이어야 합니다: "@ + trading_date),
        )
    }
}

pub fn validate_day(trading_date: &str) -> (result: LedgerResult<()>)
    ensures
        checked(result, day_fault(trading_date@)),
{
    if is_date(trading_date) {
        Ok(())
    } else {
        Err(
            LedgerError::InvalidInput(
                joined("거래일은 YYYYMMDD 형식이어야 합니다: ", trading_date),
            ),
        )
    }
}

/// The three values by which an order is known.
#[derive(Debug, PartialEq, Eq)]
pub struct BrokerOrderKey {
    /// Written `YYYYMMDD`.
    pub trading_date: String,
    /// The organisation that sent the order; empty where a notice does not give it.
    pub org_no: String,
    pub order_no: String,
}

#[verifier::ext_equal]
pub struct KeyView {
    pub trading_date: Seq<char>,
    pub org_no: Seq<char>,
    pub order_no: Seq<char>,
}

impl View for BrokerOrderKey {
    type V = KeyView;

    open spec fn view(&self) -> KeyView {
        KeyView {
            trading_date: self.trading_date@,
            org_no: self.org_no@,
            order_no: self.order_no@,
        }
    }
}

impl KeyView {
    pub open spec fn fault(self) -> Option<LedgerFault> {
        if blank(self.order_no) {
            Some(LedgerFault::InvalidInput("브로커 주문번호는 비어 있을 수 없습니다"@))
        } else {
            day_fault(self.trading_date)
        }
    }
}

impl BrokerOrderKey {
    pub fn new(trading_date: &str, org_no: &str, order_no: &str) -> (result: LedgerResult<Self>)
        ensures
            ({
                let view = KeyView {
                    trading_date: trading_date@,
                    org_no: org_no@,
                    order_no: order_no@,
                };
                match result {
                    Ok(key) => key@ == view && view.fault() is None,
                    Err(error) => view.fault() == Some(error@),
                }
            }),
    {
        let key = BrokerOrderKey {
            trading_date: trading_date.to_owned(),
            org_no: org_no.to_owned(),
            order_no: order_no.to_owned(),
        };
        match key.validate() {
            Ok(_) => Ok(key),
            Err(error) => Err(error),
        }
    }

    /// The key of an order of the trading date of a wall-clock time.
    pub fn from_fake_epoch(timestamp: i64, org_no: &str, order_no: &str) -> (result: LedgerResult<
        Self,
    >)
        ensures
            ({
                let view = KeyView {
                    trading_date: written_date(timestamp as int),
                    org_no: org_no@,
                    order_no: order_no@,
                };
                let fault = first_fault(date_fault(timestamp as int), view.fault());
                match result {
                    Ok(key) => key@ == view && fault is None,
                    Err(error) => fault == Some(error@),
                }
            }),
    {
        match trading_date_from_fake_epoch(timestamp) {
            Ok(date) => BrokerOrderKey::new(date.as_str(), org_no, order_no),
            Err(error) => Err(error),
        }
    }

    pub fn validate(&self) -> (result: LedgerResult<()>)
        ensures
            checked(result, self@.fault()),
    {
        if is_blank(self.order_no.as_str()) {
            return Err(
                LedgerError::InvalidInput("브로커 주문번호는 비어 있을 수 없습니다".to_owned()),
            );
        }
        validate_day(self.trading_date.as_str())
    }
}

/// A quantity must fit where it is stored.
pub open spec fn range_fault(value: u64, field: Seq<char>) -> Option<LedgerFault> {
    if value <= i64::MAX {
        None
    } else {
        Some(LedgerFault::OutOfRange(field))
    }
}

pub open spec fn optional_range_fault(value: Option<u64>, field: Seq<char>) -> Option<LedgerFault> {
    match value {
        Some(value) => range_fault(value, field),
        None => None,
    }
}

pub fn u64_to_i64(value: u64, field: &'static str) -> (result: LedgerResult<i64>)
    ensures
        match result {
            Ok(stored) => range_fault(value, field@) is None && stored == value,
            Err(error) => range_fault(value, field@) == Some(error@),
        },
{
    if value <= i64::MAX as u64 {
        Ok(value as i64)
    } else {
        Err(LedgerError::OutOfRange(field))
    }
}

/// A stored number as one that is not negative.
pub fn i64_to_u64(value: i64) -> (result: Option<u64>)
    ensures
        match result {
            Some(read) => value >= 0 && read == value,
            None => value < 0,
        },
{
    if value >= 0 {
        Some(value as u64)
    } else {
        None
    }
}

pub fn optional_u64_to_i64(value: Option<u64>, field: &'static str) -> (result: LedgerResult<
    Option<i64>,
>)
    ensures
        match result {
            Ok(stored) => optional_range_fault(value, field@) is None && (match (stored, value) {
                (Some(s), Some(v)) => s == v,
                (None, None) => true,
                _ => false,
            }),
            Err(error) => optional_range_fault(value, field@) == Some(error@),
        },
{
    match value {
        Some(value) => match u64_to_i64(value, field) {
            Ok(stored) => Ok(Some(stored)),
            Err(error) => Err(error),
        },
        None => Ok(None),
    }
}

/// A row must have been found.
pub open spec fn missing(kind: Seq<char>, id: Seq<char>) -> LedgerFault {
    LedgerFault::NotFound(kind + ":"@ + id)
}

pub fn ensure_changed(changed: usize, kind: &str, id: &str) -> (result: LedgerResult<()>)
    ensures
        checked(
            result,
            if changed == 0 {
                Some(missing(kind@, id@))
            } else {
                None
            },
        ),
{
    if changed == 0 {
        Err(not_found(kind, id))
    } else {
        Ok(())
    }
}

pub fn not_found(kind: &str, id: &str) -> (error: LedgerError)
    ensures
        error@ == missing(kind@, id@),
{
    let mut text = joined(kind, ":");
    text.append(id);
    LedgerError::NotFound(text)
}

/// Rows on a page: those asked for, within bounds.
pub open spec fn page_size(limit: usize) -> int {
    if limit == 0 {
        50
    } else if limit <= 200 {
        limit as int
    } else {
        200
    }
}

pub fn normalize_limit(limit: usize) -> (size: usize)
    ensures
        size == page_size(limit),
        1 <= size <= MAX_PAGE_SIZE,
{
    if limit == 0 {
        DEFAULT_PAGE_SIZE
    } else if limit <= MAX_PAGE_SIZE {
        limit
    } else {
        MAX_PAGE_SIZE
    }
}

/// A price of a scenario that is given must not be zero.
pub open spec fn price_fault(price: Option<u64>, field: Seq<char>) -> Option<LedgerFault> {
    if price == Some(0u64) {
        Some(
            LedgerFault::InvalidInput("시나리오 "@ + field + "는 1 이상이어야 합니다"@),
        )
    } else {
        None
    }
}

fn check_price(price: Option<u64>, field: &str) -> (result: LedgerResult<()>)
    ensures
        checked(result, price_fault(price, field@)),
{
    match price {
        Some(0) => {
            let mut text = joined("시나리오 ", field);
            text.append("는 1 이상이어야 합니다");
            Err(LedgerError::InvalidInput(text))
        },
        _ => Ok(()),
    }
}

/// What is wrong with one scenario, given those before it.
pub open spec fn one_scenario_fault(scenarios: Seq<ScenarioSeedView>, i: int) -> Option<LedgerFault> {
    let s = scenarios[i];
    if s.trigger_price == 0 {
        Some(LedgerFault::InvalidInput("시나리오 실제 확인가는 1 이상이어야 합니다"@))
    } else {
        first_fault(
            price_fault(s.reference_price, "reference_price"@),
            first_fault(
                price_fault(s.confirmation_price, "confirmation_price"@),
                first_fault(
                    price_fault(s.invalidation_price, "invalidation_price"@),
                    if exists|j: int| 0 <= j < i && (#[trigger] scenarios[j]).product == s.product {
                        Some(
                            LedgerFault::InvalidInput(
                                "한 결정에 같은 상품 시나리오를 중복 기록할 수 없습니다"@,
                            ),
                        )
                    } else {
                        None
                    },
                ),
            ),
        )
    }
}

/// What is wrong with the first scenarios.
pub open spec fn first_scenarios_fault(scenarios: Seq<ScenarioSeedView>, n: int) -> Option<
    LedgerFault,
>
    decreases n,
{
    if n <= 0 {
        None
    } else {
        first_fault(
            first_scenarios_fault(scenarios, n - 1),
            one_scenario_fault(scenarios, n - 1),
        )
    }
}

/// What is wrong with a decision's scenarios: there are too many, a price is zero, or a product
/// comes twice.
pub open spec fn scenarios_fault(scenarios: Seq<ScenarioSeedView>) -> Option<LedgerFault> {
    if scenarios.len() > 2 {
        Some(LedgerFault::InvalidInput("결정에는 시나리오를 최대 2개만 기록할 수 있습니다"@))
    } else {
        first_scenarios_fault(scenarios, scenarios.len() as int)
    }
}

fn check_scenario(scenarios: &[NewDecisionScenario], i: usize) -> (result: LedgerResult<()>)
    requires
        i < scenarios@.len(),
    ensures
        checked(result, one_scenario_fault(rows(scenarios@), i as int)),
{
    let ghost views = rows(scenarios@);
    let s = &scenarios[i];
    assert(views[i as int] == s@);
    if s.trigger_price == 0 {
        return Err(
            LedgerError::InvalidInput("시나리오 실제 확인가는 1 이상이어야 합니다".to_owned()),
        );
    }
    if let Err(error) = check_price(s.reference_price, "reference_price") {
        return Err(error);
    }
    if let Err(error) = check_price(s.confirmation_price, "confirmation_price") {
        return Err(error);
    }
    if let Err(error) = check_price(s.invalidation_price, "invalidation_price") {
        return Err(error);
    }
    if product_seen(scenarios, i) {
        return Err(
            LedgerError::InvalidInput(
                "한 결정에 같은 상품 시나리오를 중복 기록할 수 없습니다".to_owned(),
            ),
        );
    }
    Ok(())
}

fn product_seen(scenarios: &[NewDecisionScenario], i: usize) -> (yes: bool)
    requires
        i < scenarios@.len(),
    ensures
        yes == exists|j: int|
            0 <= j < i && (#[trigger] rows(scenarios@)[j]).product == rows(
                scenarios@,
            )[i as int].product,
{
    let ghost views = rows(scenarios@);
    assert(views[i as int] == scenarios@[i as int]@);
    let mut j: usize = 0;
    while j < i
        invariant
            j <= i < scenarios@.len(),
            views == rows(scenarios@),
            forall|k: int|
                0 <= k < j ==> (#[trigger] views[k]).product != views[i as int].product,
        decreases i - j,
    {
        assert(views[j as int] == scenarios@[j as int]@);
        assert(views[i as int] == scenarios@[i as int]@);
        if scenarios[j].product == scenarios[i].product {
            return true;
        }
        j += 1;
    }
    false
}

pub fn validate_scenarios(scenarios: &[NewDecisionScenario]) -> (result: LedgerResult<()>)
    ensures
        checked(result, scenarios_fault(rows(scenarios@))),
{
    if scenarios.len() > 2 {
        return Err(
            LedgerError::InvalidInput(
                "결정에는 시나리오를 최대 2개만 기록할 수 있습니다".to_owned(),
            ),
        );
    }
    let mut i: usize = 0;
    let mut result: LedgerResult<()> = Ok(());
    while i < scenarios.len()
        invariant
            i <= scenarios@.len() <= 2,
            checked(result, first_scenarios_fault(rows(scenarios@), i as int)),
        decreases scenarios@.len() - i,
    {
        if let Ok(_) = result {
            result = check_scenario(scenarios, i);
        }
        i += 1;
    }
    result
}

/// A decision whose scenarios pass names no product twice.
pub proof fn recorded_products_differ(scenarios: Seq<ScenarioSeedView>, n: int, i: int, j: int)
    requires
        first_scenarios_fault(scenarios, n) is None,
        0 <= i < j < n <= scenarios.len(),
    ensures
        scenarios[i].product != scenarios[j].product,
    decreases n,
{
    if j < n - 1 {
        recorded_products_differ(scenarios, n - 1, i, j);
    }
}

} // verus!
