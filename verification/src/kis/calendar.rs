//! On which days the exchange trades.

use vstd::prelude::*;

use crate::broker::{BrokerMarketDay, MarketDayView};
use crate::error::{is_parse, AppError, AppResult};
use crate::json::{lemma_list_says, lemma_object_says, Json, JsonView};
use crate::kis::rest::{checked, param, param_views, KisRest, Param};
use crate::seqs::{filter_mapped, lemma_filter_mapped_step};
use crate::tables::rows;
use crate::text::{all_digits, chars_of, joined, numeric, same, trim, trimmed};

verus! {

pub const PATH_HOLIDAY: &'static str = "/uapi/domestic-stock/v1/quotations/chk-holiday";

pub const TR_HOLIDAY: &'static str = "CTCA0903R";

/// Eight digits.
pub open spec fn eight_digits(text: Seq<char>) -> bool {
    text.len() == 8 && numeric(text)
}

pub fn is_eight_digits(text: &str) -> (yes: bool)
    ensures
        yes == eight_digits(text@),
{
    let chars = chars_of(text);
    chars.len() == 8 && all_digits(&chars)
}

/// Whether a day can be asked for.
pub fn validate_basis_date(basis_date: &str) -> (result: AppResult<()>)
    ensures
        match result {
            Ok(_) => eight_digits(basis_date@),
            Err(error) => !eight_digits(basis_date@) && is_parse(
                error,
                "휴장일 기준일자는 YYYYMMDD 형식이어야 합니다: "@ + basis_date@,
            ),
        },
{
    if !is_eight_digits(basis_date) {
        return Err(
            AppError::Parse(
                joined("휴장일 기준일자는 YYYYMMDD 형식이어야 합니다: ", basis_date),
            ),
        );
    }
    Ok(())
}

/// Asks for the days from one on.
pub fn holiday_params(basis_date: &str) -> (params: AppResult<Vec<Param>>)
    ensures
        match params {
            Ok(params) => eight_digits(basis_date@) && param_views(params@) == seq![
                ("BASS_DT"@, basis_date@),
                ("CTX_AREA_FK"@, ""@),
                ("CTX_AREA_NK"@, ""@),
            ],
            Err(error) => !eight_digits(basis_date@) && is_parse(
                error,
                "휴장일 기준일자는 YYYYMMDD 형식이어야 합니다: "@ + basis_date@,
            ),
        },
{
    if let Err(error) = validate_basis_date(basis_date) {
        return Err(error);
    }
    let mut params: Vec<Param> = Vec::new();
    params.push(param("BASS_DT", basis_date));
    params.push(param("CTX_AREA_FK", ""));
    params.push(param("CTX_AREA_NK", ""));
    assert(param_views(params@) =~= seq![
        ("BASS_DT"@, basis_date@),
        ("CTX_AREA_FK"@, ""@),
        ("CTX_AREA_NK"@, ""@),
    ]);
    Ok(params)
}

/// How many bytes a text takes in UTF-8.
pub open spec fn byte_len(text: Seq<char>) -> nat {
    vstd::utf8::encode_utf8(text).len()
}

/// The day that a row tells of: none where the date does not take eight bytes, or it is told
/// neither that the exchange trades nor that it does not.
pub open spec fn day_of() -> spec_fn(JsonView) -> Option<MarketDayView> {
    |row: JsonView|
        match (row.text_field("bass_dt"@), row.text_field("opnd_yn"@)) {
            (Some(date), Some(open)) => {
                let date = trimmed(date);
                let open = trimmed(open);
                if byte_len(date) == 8 && (open == "Y"@ || open == "N"@) {
                    Some(MarketDayView { date, is_open: open == "Y"@ })
                } else {
                    None
                }
            },
            _ => None,
        }
}

fn read_day(row: &Json) -> (day: Option<BrokerMarketDay>)
    ensures
        match day {
            Some(d) => day_of()(row@) == Some(d@),
            None => day_of()(row@) is None,
        },
{
    match (row.get_str("bass_dt"), row.get_str("opnd_yn")) {
        (Some(date), Some(open)) => {
            let date = trim(date);
            let open = trim(open);
            let is_open = same(open.as_str(), "Y");
            let is_closed = same(open.as_str(), "N");
            if date.as_str().as_bytes().len() != 8 || !(is_open || is_closed) {
                return None;
            }
            Some(BrokerMarketDay { date, is_open })
        },
        _ => None,
    }
}

/// The rows of a reply: a list, or one object in place of a list.
pub open spec fn day_rows(v: JsonView) -> Option<Seq<JsonView>> {
    match v.field("output"@) {
        Some(JsonView::List(items)) => Some(items),
        Some(JsonView::Object(members)) => Some(seq![JsonView::Object(members)]),
        _ => None,
    }
}

/// The days of a reply, or why there are none.
pub open spec fn days_told(v: JsonView, result: AppResult<Vec<BrokerMarketDay>>) -> bool {
    match (day_rows(v), result) {
        (None, Err(error)) => is_parse(
            error,
            "국내휴장일조회 output 형식을 해석할 수 없습니다"@,
        ),
        (Some(told), Err(error)) => filter_mapped(told, day_of()).len() == 0 && is_parse(
            error,
            "국내휴장일조회에서 유효한 개장일 데이터를 찾지 못했습니다"@,
        ),
        (Some(told), Ok(days)) => days@.len() > 0 && rows(days@) == filter_mapped(told, day_of()),
        (None, Ok(_)) => false,
    }
}

/// Reads the days of a reply.
pub fn parse_market_days(response: &Json) -> (days: AppResult<Vec<BrokerMarketDay>>)
    ensures
        days_told(response@, days),
{
    let mut days: Vec<BrokerMarketDay> = Vec::new();
    assert(rows(days@) =~= Seq::empty());
    match response.get("output") {
        Some(Json::List(items)) => {
            proof {
                lemma_list_says(*items);
            }
            let mut i: usize = 0;
            assert(rows(items@).take(0) =~= Seq::empty());
            while i < items.len()
                invariant
                    i <= items@.len(),
                    rows(days@) == filter_mapped(rows(items@).take(i as int), day_of()),
                decreases items@.len() - i,
            {
                let ghost before = rows(days@);
                proof {
                    lemma_filter_mapped_step(rows(items@), day_of(), i as int);
                assert(rows(items@)[i as int] == items@[i as int]@);
                }
                if let Some(day) = read_day(&items[i]) {
                    days.push(day);
                    assert(rows(days@) =~= before.push(day@));
                }
                i += 1;
            }
            assert(rows(items@).take(i as int) =~= rows(items@));
        },
        Some(value) => match value {
            Json::Object(members) => {
                proof {
                    lemma_object_says(*members);
                }
                let ghost told = seq![value@];
                proof {
                    assert(told.take(0) =~= Seq::empty());
                    assert(told.take(1) =~= told);
                    lemma_filter_mapped_step(told, day_of(), 0);
                }
                if let Some(day) = read_day(value) {
                    days.push(day);
                    assert(rows(days@) =~= Seq::empty().push(day@));
                }
            },
            _ => return Err(
                AppError::Parse("국내휴장일조회 output 형식을 해석할 수 없습니다".to_owned()),
            ),
        },
        None => return Err(
            AppError::Parse("국내휴장일조회 output 형식을 해석할 수 없습니다".to_owned()),
        ),
    }
    assert(days@.len() == rows(days@).len());
    if days.len() == 0 {
        return Err(
            AppError::Parse(
                "국내휴장일조회에서 유효한 개장일 데이터를 찾지 못했습니다".to_owned(),
            ),
        );
    }
    Ok(days)
}

/// The days of a reply that the broker gave.
pub fn market_days(v: &Json) -> (days: AppResult<Vec<BrokerMarketDay>>)
    ensures
        v@.text_field("rt_cd"@) != Some("0"@) ==> (days matches Err(error) && checked(v@, Err(error))),
        v@.text_field("rt_cd"@) == Some("0"@) ==> days_told(v@, days),
{
    if let Err(error) = KisRest::check_rt(v) {
        return Err(error);
    }
    parse_market_days(v)
}

} // verus!
