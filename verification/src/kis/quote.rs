//! Prices on request, and bars of the past.

use vstd::prelude::*;

use crate::candles::{ascending, by_time, by_time_orders, sort_by_time};
use crate::clock::{
    date_text, joined as joined_time, kst_str_to_fake_epoch, midnight, on_calendar, parse_clock,
    parsed_date, parsed_time, split_day, written_date,
};
use crate::error::{AppError, AppResult};
use crate::json::{Json, JsonView};
use crate::kis::account::listed_rows;
use crate::kis::numbers::{
    field_number, num_billionths, num_u64, padded, rate_of, to_rate, whole_of, write_padded,
};
use crate::kis::rest::{checked, param, param_views, KisRest, Param};
use crate::seqs::{filter_mapped, lemma_filter_mapped_step};
use crate::tables::rows;
use crate::text::{comes_before, opt, precedes, same};
use crate::types::{Candle, Quote, QuoteView};
use crate::util::second_of_day;

verus! {

pub const PATH_PRICE: &'static str = "/uapi/domestic-stock/v1/quotations/inquire-price";

pub const TR_PRICE: &'static str = "FHKST01010100";

pub const PATH_ASKING: &'static str =
    "/uapi/domestic-stock/v1/quotations/inquire-asking-price-exp-ccn";

pub const TR_ASKING: &'static str = "FHKST01010200";

pub const PATH_TODAY_MIN: &'static str =
    "/uapi/domestic-stock/v1/quotations/inquire-time-itemchartprice";

pub const TR_TODAY_MIN: &'static str = "FHKST03010200";

pub const PATH_DAILY_MIN: &'static str =
    "/uapi/domestic-stock/v1/quotations/inquire-time-dailychartprice";

pub const TR_DAILY_MIN: &'static str = "FHKST03010230";

/// Bars of a minute that the longest average of the longest bars needs, and some more.
pub const MIN_BARS: usize = 1_920;

/// How many days are gone back at most, holidays counted.
pub const MAX_SCAN_DAYS: u32 = 15;

/// How many rows a page of today has, unless it is the last.
pub const TODAY_PAGE: usize = 30;

/// How many rows a page of an earlier day has at least, unless it is the last.
pub const PAST_PAGE: usize = 5;

/// Wait between two pages, in nanoseconds.
pub const BACKFILL_PAGE_DELAY: u128 = 40_000_000;

/// Both venues together, or the exchange alone.
pub open spec fn venue(unified: bool) -> Seq<char> {
    if unified {
        "UN"@
    } else {
        "J"@
    }
}

fn venue_text(unified: bool) -> (text: &'static str)
    ensures
        text@ == venue(unified),
{
    if unified {
        "UN"
    } else {
        "J"
    }
}

/// When trading begins and ends, in seconds of the day: from eight to twenty on both venues, from
/// nine to half past three on the exchange.
pub open spec fn session(unified: bool) -> (u32, u32) {
    if unified {
        (28_800, 72_000)
    } else {
        (32_400, 55_800)
    }
}

fn session_of(unified: bool) -> (bounds: (u32, u32))
    ensures
        bounds == session(unified),
{
    if unified {
        (28_800, 72_000)
    } else {
        (32_400, 55_800)
    }
}

/// When trading begins and ends at a venue, in seconds of the day.
pub fn session_bounds(div: &str) -> (bounds: (u32, u32))
    ensures
        bounds == session(div@ == "UN"@),
{
    session_of(same(div, "UN"))
}

/// A second of the day, written `HHMMSS`.
pub open spec fn hms(second: nat) -> Seq<char> {
    padded(second / 3_600, 2) + padded(second / 60 % 60, 2) + padded(second % 60, 2)
}

/// Writes a second of the day.
pub fn write_hms(second: u32) -> (text: String)
    ensures
        text@ == hms(second as nat),
{
    let mut text = write_padded((second / 3_600) as u64, 2);
    text.append(write_padded((second / 60 % 60) as u64, 2).as_str());
    text.append(write_padded((second % 60) as u64, 2).as_str());
    text
}

/// The time a minute before, while trading goes on.
pub open spec fn minute_before(time: Seq<char>, session_open: u32) -> Option<Seq<char>> {
    match parsed_time(time) {
        Some((second, nanos)) => second_before(second, nanos, session_open),
        None => None,
    }
}

/// The time a minute before a second of the day and some nanoseconds, while trading goes on. A second
/// that is a leap second counts as the one after it.
pub open spec fn second_before(second: u32, nanos: u32, session_open: u32) -> Option<Seq<char>> {
    let at = if nanos >= 1_000_000_000 {
        second + 1
    } else {
        second as int
    };
    if second < session_open || (second == session_open && nanos == 0) {
        None
    } else if at >= 60 {
        Some(hms((at - 60) as nat))
    } else {
        Some(hms((at + 86_340) as nat))
    }
}

/// The time a minute before. None where that is before trading begins, or the time is unreadable.
pub fn minus_one_minute(hhmmss: &str, session_open: u32) -> (time: Option<String>)
    ensures
        opt(time) == minute_before(hhmmss@, session_open),
{
    match parse_clock(hhmmss) {
        Some((second, nanos)) => minute_earlier(second, nanos, session_open),
        None => None,
    }
}

/// The time a minute before a second of the day and some nanoseconds. None where that is before
/// trading begins.
pub fn minute_earlier(second: u32, nanos: u32, session_open: u32) -> (time: Option<String>)
    requires
        second < 86_400,
    ensures
        opt(time) == second_before(second, nanos, session_open),
{
    let at: u32 = if nanos >= 1_000_000_000 {
        second + 1
    } else {
        second
    };
    if second < session_open || (second == session_open && nanos == 0) {
        None
    } else if at >= 60 {
        Some(write_hms(at - 60))
    } else {
        Some(write_hms(at + 86_340))
    }
}

/// Asks for the price or the book of a code.
pub fn snapshot_params(code: &str) -> (params: Vec<Param>)
    ensures
        param_views(params@) == seq![
            ("FID_COND_MRKT_DIV_CODE"@, "UN"@),
            ("FID_INPUT_ISCD"@, code@),
        ],
{
    let mut params: Vec<Param> = Vec::new();
    params.push(param("FID_COND_MRKT_DIV_CODE", "UN"));
    params.push(param("FID_INPUT_ISCD", code));
    assert(param_views(params@) =~= seq![
        ("FID_COND_MRKT_DIV_CODE"@, "UN"@),
        ("FID_INPUT_ISCD"@, code@),
    ]);
    params
}

/// The best ask and the best bid.
#[derive(Debug, Clone, Copy, PartialEq, Eq, Structural)]
pub struct BookTop {
    pub ask1: u64,
    pub bid1: u64,
    pub ask1_qty: u64,
    pub bid1_qty: u64,
}

pub open spec fn top_of(v: JsonView) -> BookTop {
    BookTop {
        ask1: whole_of(field_number(v.nested("output1"@, "askp1"@))),
        bid1: whole_of(field_number(v.nested("output1"@, "bidp1"@))),
        ask1_qty: whole_of(field_number(v.nested("output1"@, "askp_rsqn1"@))),
        bid1_qty: whole_of(field_number(v.nested("output1"@, "bidp_rsqn1"@))),
    }
}

/// The top of the book of a reply. An order needs no more than this where there is an ask; without
/// one, as in an auction, the price is asked for too.
pub fn read_book(v: &Json) -> (top: AppResult<BookTop>)
    ensures
        match top {
            Ok(top) => v@.text_field("rt_cd"@) == Some("0"@) && top == top_of(v@),
            Err(error) => checked(v@, Err(error)),
        },
{
    if let Err(error) = KisRest::check_rt(v) {
        return Err(error);
    }
    Ok(
        BookTop {
            ask1: num_u64(v.get_nested("output1", "askp1")),
            bid1: num_u64(v.get_nested("output1", "bidp1")),
            ask1_qty: num_u64(v.get_nested("output1", "askp_rsqn1")),
            bid1_qty: num_u64(v.get_nested("output1", "bidp_rsqn1")),
        },
    )
}

/// A price, and how it stands to that of the day before in billionths of a percent.
#[derive(Debug, Clone, Copy, PartialEq, Eq, Structural)]
pub struct PriceRead {
    pub price: u64,
    pub change_rate: i64,
}

/// The price of a reply.
pub fn read_price(v: &Json) -> (price: AppResult<PriceRead>)
    ensures
        match price {
            Ok(read) => v@.text_field("rt_cd"@) == Some("0"@) && read == (PriceRead {
                price: whole_of(field_number(v@.nested("output"@, "stck_prpr"@))),
                change_rate: rate_of(field_number(v@.nested("output"@, "prdy_ctrt"@))),
            }),
            Err(error) => checked(v@, Err(error)),
        },
{
    if let Err(error) = KisRest::check_rt(v) {
        return Err(error);
    }
    Ok(
        PriceRead {
            price: num_u64(v.get_nested("output", "stck_prpr")),
            change_rate: to_rate(num_billionths(v.get_nested("output", "prdy_ctrt"))),
        },
    )
}

/// Whether the price must be asked for beside the book.
pub fn needs_price(top: &BookTop) -> (yes: bool)
    ensures
        yes == (top.ask1 == 0),
{
    top.ask1 == 0
}

/// A quote of the book and, where it was asked for, the price. The ask stands for the price where
/// there is one.
pub fn snapshot(code: &str, top: BookTop, price: Option<PriceRead>, now: i64, received_at_micros: u64)
    -> (quote: Quote)
    ensures
        quote@ == (QuoteView {
            code: code@,
            price: if top.ask1 > 0 {
                top.ask1
            } else {
                match price {
                    Some(read) => read.price,
                    None => 0,
                }
            },
            change_rate: if top.ask1 > 0 {
                0
            } else {
                match price {
                    Some(read) => read.change_rate,
                    None => 0,
                }
            },
            ask1: top.ask1,
            bid1: top.bid1,
            ask1_qty: top.ask1_qty,
            bid1_qty: top.bid1_qty,
            volume: 0,
            trade_sequence: 0,
            received_at_micros,
            trade_ts: now,
            book_ts: now,
        }),
{
    let read = if top.ask1 > 0 {
        PriceRead { price: top.ask1, change_rate: 0 }
    } else {
        match price {
            Some(read) => read,
            None => PriceRead { price: 0, change_rate: 0 },
        }
    };
    Quote {
        code: code.to_owned(),
        price: read.price,
        change_rate: read.change_rate,
        ask1: top.ask1,
        bid1: top.bid1,
        ask1_qty: top.ask1_qty,
        bid1_qty: top.bid1_qty,
        volume: 0,
        trade_sequence: 0,
        received_at_micros,
        trade_ts: now,
        book_ts: now,
    }
}

/// The bar that a row tells of: none where its day or its time is missing or unreadable.
pub open spec fn candle_of() -> spec_fn(JsonView) -> Option<Candle> {
    |row: JsonView|
        match (row.text_field("stck_bsop_date"@), row.text_field("stck_cntg_hour"@)) {
            (Some(date), Some(hour)) => match joined_time(parsed_date(date), parsed_time(hour)) {
                Some(time) => Some(bar_of(row, time)),
                None => None,
            },
            _ => None,
        }
}

/// The bar that a row tells of, at a time.
pub open spec fn bar_of(row: JsonView, time: i64) -> Candle {
    Candle {
        time,
        open: whole_of(field_number(row.field("stck_oprc"@))),
        high: whole_of(field_number(row.field("stck_hgpr"@))),
        low: whole_of(field_number(row.field("stck_lwpr"@))),
        close: whole_of(field_number(row.field("stck_prpr"@))),
        volume: whole_of(field_number(row.field("cntg_vol"@))),
    }
}

/// Reads the bar of a row.
pub fn row_to_candle(row: &Json) -> (candle: Option<Candle>)
    ensures
        candle == candle_of()(row@),
{
    match (row.get_str("stck_bsop_date"), row.get_str("stck_cntg_hour")) {
        (Some(date), Some(hour)) => match kst_str_to_fake_epoch(date, hour) {
            Some(time) => Some(bar_at(row, time)),
            None => None,
        },
        _ => None,
    }
}

/// Reads the bar of a row, at a time.
pub fn bar_at(row: &Json, time: i64) -> (bar: Candle)
    ensures
        bar == bar_of(row@, time),
{
    Candle {
        time,
        open: num_u64(row.get("stck_oprc")),
        high: num_u64(row.get("stck_hgpr")),
        low: num_u64(row.get("stck_lwpr")),
        close: num_u64(row.get("stck_prpr")),
        volume: num_u64(row.get("cntg_vol")),
    }
}

/// The least of the times that rows tell, as texts.
pub open spec fn oldest_hour(told: Seq<JsonView>) -> Option<Seq<char>>
    decreases told.len(),
{
    if told.len() == 0 {
        None
    } else {
        let before = oldest_hour(told.drop_last());
        match told.last().text_field("stck_cntg_hour"@) {
            Some(hour) => match before {
                Some(oldest) => if precedes(hour, oldest) {
                    Some(hour)
                } else {
                    Some(oldest)
                },
                None => Some(hour),
            },
            None => before,
        }
    }
}

/// The time that the next page is asked for by.
pub open spec fn next_cursor(told: Seq<JsonView>, session_open: u32) -> Option<Seq<char>> {
    match oldest_hour(told) {
        Some(hour) => minute_before(hour, session_open),
        None => None,
    }
}

/// What a page of bars says.
#[derive(Debug)]
pub struct MinutePage {
    pub candles: Vec<Candle>,
    pub rows: usize,
    /// The time that the next page is asked for by.
    pub next: Option<String>,
}

/// Reads a page of bars.
pub fn read_minutes(v: &Json, session_open: u32) -> (page: AppResult<MinutePage>)
    ensures
        match page {
            Ok(page) => {
                let told = listed_rows(v@, "output2"@);
                &&& v@.text_field("rt_cd"@) == Some("0"@)
                &&& page.candles@ == filter_mapped(told, candle_of())
                &&& page.rows == told.len()
                &&& opt(page.next) == next_cursor(told, session_open)
            },
            Err(error) => checked(v@, Err(error)),
        },
{
    if let Err(error) = KisRest::check_rt(v) {
        return Err(error);
    }
    let mut candles: Vec<Candle> = Vec::new();
    let mut oldest: Option<String> = None;
    let mut count: usize = 0;
    if let Some(items) = v.get_array("output2") {
        let mut i: usize = 0;
        assert(rows(items@).take(0) =~= Seq::empty());
        while i < items.len()
            invariant
                i <= items@.len(),
                candles@ == filter_mapped(rows(items@).take(i as int), candle_of()),
                opt(oldest) == oldest_hour(rows(items@).take(i as int)),
            decreases items@.len() - i,
        {
            proof {
                lemma_filter_mapped_step(rows(items@), candle_of(), i as int);
                assert(rows(items@)[i as int] == items@[i as int]@);
                assert(rows(items@).take(i + 1).drop_last() =~= rows(items@).take(i as int));
            }
            let row = &items[i];
            if let Some(candle) = row_to_candle(row) {
                candles.push(candle);
            }
            if let Some(hour) = row.get_str("stck_cntg_hour") {
                let older = match &oldest {
                    Some(oldest) => comes_before(hour, oldest.as_str()),
                    None => true,
                };
                if older {
                    oldest = Some(hour.to_owned());
                }
            }
            i += 1;
        }
        assert(rows(items@).take(i as int) =~= rows(items@));
        count = items.len();
    }
    let next = match &oldest {
        Some(hour) => minus_one_minute(hour.as_str(), session_open),
        None => None,
    };
    Ok(MinutePage { candles, rows: count, next })
}

/// Whether a midnight begins a Saturday or a Sunday. The first day of the count is a Thursday.
pub open spec fn weekend(day: int) -> bool {
    (day / 86_400 + 3) % 7 >= 5
}

/// Whether a midnight begins a Saturday or a Sunday.
pub fn is_weekend(day: i64) -> (yes: bool)
    requires
        on_calendar(day as int),
        second_of_day(day as int) == 0,
    ensures
        yes == weekend(day as int),
{
    let days: i64 = day / 86_400 + 100_000_001;
    assert(day as int == 86_400 * (day as int / 86_400));
    assert(days == day as int / 86_400 + 100_000_001) by {
        if day < 0 {
            assert((-day) as int == 86_400 * (-(day as int / 86_400)));
        }
    }
    days % 7 >= 5
}

/// Where a scan stands.
#[verifier::ext_equal]
pub enum StageView {
    /// Pages of today, from a time back.
    Today { cursor: Seq<char> },
    /// Pages of an earlier day, from a time back.
    Past { day: i64, scanned: u32, cursor: Seq<char> },
    Done,
}

#[derive(Debug)]
enum Stage {
    Today { cursor: String },
    Past { day: i64, scanned: u32, cursor: String },
    Done,
}

impl View for Stage {
    type V = StageView;

    closed spec fn view(&self) -> StageView {
        match self {
            Stage::Today { cursor } => StageView::Today { cursor: cursor@ },
            Stage::Past { day, scanned, cursor } => StageView::Past {
                day: *day,
                scanned: *scanned,
                cursor: cursor@,
            },
            Stage::Done => StageView::Done,
        }
    }
}

/// Gathers the bars that a chart needs: today's, then those of earlier days until there are enough.
///
/// Both venues are asked for together. Whether they answer for a code is not certain, so that a
/// failure goes on with the exchange alone, and a second one ends the scan.
#[derive(Debug)]
pub struct CandleScan {
    code: String,
    unified: bool,
    all: Vec<Candle>,
    stage: Stage,
}

#[verifier::ext_equal]
pub struct ScanView {
    pub code: Seq<char>,
    pub unified: bool,
    pub all: Seq<Candle>,
    pub stage: StageView,
}

impl View for CandleScan {
    type V = ScanView;

    closed spec fn view(&self) -> ScanView {
        ScanView {
            code: self.code@,
            unified: self.unified,
            all: self.all@,
            stage: self.stage@,
        }
    }
}

/// The next working day back from one, while bars are wanting and days are left.
pub open spec fn past_stage(bars: nat, unified: bool, day: int, scanned: int) -> StageView
    decreases MAX_SCAN_DAYS - scanned,
{
    if bars >= MIN_BARS || scanned >= MAX_SCAN_DAYS || !on_calendar(day - 86_400) {
        StageView::Done
    } else if weekend(day - 86_400) {
        past_stage(bars, unified, day - 86_400, scanned + 1)
    } else {
        StageView::Past {
            day: (day - 86_400) as i64,
            scanned: (scanned + 1) as u32,
            cursor: hms(session(unified).1 as nat),
        }
    }
}

/// The days before the present one.
pub open spec fn before_today(bars: nat, unified: bool, now: int) -> StageView {
    if on_calendar(now) {
        past_stage(bars, unified, midnight(now), 0)
    } else {
        StageView::Done
    }
}

/// Today, if trading has begun on it.
pub open spec fn today_stage(bars: nat, unified: bool, now: int) -> StageView {
    let second = second_of_day(now);
    let (open, close) = session(unified);
    if !on_calendar(now) || second < open || weekend(midnight(now)) {
        before_today(bars, unified, now)
    } else {
        StageView::Today {
            cursor: hms(
                (if second <= close {
                    second
                } else {
                    close as int
                }) as nat,
            ),
        }
    }
}

impl ScanView {
    pub open spec fn start(code: Seq<char>, now: int) -> ScanView {
        ScanView { code, unified: true, all: Seq::empty(), stage: today_stage(0, true, now) }
    }

    /// After a request failed: with the exchange alone, today from the beginning or the same day
    /// again. `None` where the exchange alone has failed.
    pub open spec fn failed(self, now: int) -> Option<ScanView> {
        if !self.unified {
            None
        } else {
            match self.stage {
                StageView::Today { cursor } => Some(
                    ScanView {
                        unified: false,
                        all: Seq::empty(),
                        stage: today_stage(0, false, now),
                        ..self
                    },
                ),
                StageView::Past { day, scanned, cursor } => Some(
                    ScanView {
                        unified: false,
                        stage: StageView::Past { day, scanned, cursor: hms(session(false).1 as nat) },
                        ..self
                    },
                ),
                StageView::Done => None,
            }
        }
    }

    /// After a page came.
    pub open spec fn paged(self, now: int, told: Seq<JsonView>) -> ScanView {
        let all = self.all + filter_mapped(told, candle_of());
        let next = next_cursor(told, session(self.unified).0);
        match self.stage {
            StageView::Today { cursor } => ScanView {
                all,
                stage: if told.len() >= TODAY_PAGE && next is Some {
                    StageView::Today { cursor: next->0 }
                } else {
                    before_today(all.len(), self.unified, now)
                },
                ..self
            },
            StageView::Past { day, scanned, cursor } => ScanView {
                all,
                stage: if told.len() >= PAST_PAGE && next is Some {
                    StageView::Past { day, scanned, cursor: next->0 }
                } else {
                    past_stage(all.len(), self.unified, day as int, scanned as int)
                },
                ..self
            },
            StageView::Done => self,
        }
    }

    /// The next request.
    pub open spec fn query(self) -> Option<Seq<(Seq<char>, Seq<char>)>> {
        match self.stage {
            StageView::Today { cursor } => Some(
                seq![
                    ("FID_ETC_CLS_CODE"@, ""@),
                    ("FID_COND_MRKT_DIV_CODE"@, venue(self.unified)),
                    ("FID_INPUT_ISCD"@, self.code),
                    ("FID_INPUT_HOUR_1"@, cursor),
                    ("FID_PW_DATA_INCU_YN"@, "Y"@),
                ],
            ),
            StageView::Past { day, scanned, cursor } => Some(
                seq![
                    ("FID_COND_MRKT_DIV_CODE"@, venue(self.unified)),
                    ("FID_INPUT_ISCD"@, self.code),
                    ("FID_INPUT_DATE_1"@, written_date(day as int)),
                    ("FID_INPUT_HOUR_1"@, cursor),
                    ("FID_PW_DATA_INCU_YN"@, "Y"@),
                    ("FID_FAKE_TICK_INCU_YN"@, ""@),
                ],
            ),
            StageView::Done => None,
        }
    }

    /// An earlier day is a midnight on the calendar.
    pub open spec fn wf(self) -> bool {
        self.stage matches StageView::Past { day, scanned, cursor } ==> {
            &&& on_calendar(day as int)
            &&& second_of_day(day as int) == 0
            &&& scanned <= MAX_SCAN_DAYS
        }
    }
}

fn find_past(bars: usize, unified: bool, from: i64, from_scanned: u32) -> (stage: Stage)
    requires
        on_calendar(from as int),
        second_of_day(from as int) == 0,
        from_scanned <= MAX_SCAN_DAYS,
    ensures
        stage@ == past_stage(bars as nat, unified, from as int, from_scanned as int),
        stage@ matches StageView::Past { day, scanned, cursor } ==> {
            &&& on_calendar(day as int)
            &&& second_of_day(day as int) == 0
            &&& scanned <= MAX_SCAN_DAYS
        },
{
    let mut day: i64 = from;
    let mut scanned: u32 = from_scanned;
    while bars < MIN_BARS && scanned < MAX_SCAN_DAYS && day - 86_400 >= crate::clock::MIN_TIMESTAMP
        invariant
            on_calendar(day as int),
            second_of_day(day as int) == 0,
            scanned <= MAX_SCAN_DAYS,
            past_stage(bars as nat, unified, from as int, from_scanned as int) == past_stage(
                bars as nat,
                unified,
                day as int,
                scanned as int,
            ),
        decreases MAX_SCAN_DAYS - scanned,
    {
        day = day - 86_400;
        scanned = scanned + 1;
        if !is_weekend(day) {
            let (_, close) = session_of(unified);
            return Stage::Past { day, scanned, cursor: write_hms(close) };
        }
    }
    Stage::Done
}

fn find_before_today(bars: usize, unified: bool, now: i64) -> (stage: Stage)
    ensures
        stage@ == before_today(bars as nat, unified, now as int),
        stage@ matches StageView::Past { day, scanned, cursor } ==> {
            &&& on_calendar(day as int)
            &&& second_of_day(day as int) == 0
            &&& scanned <= MAX_SCAN_DAYS
        },
{
    match split_day(now) {
        Some((day, _)) => find_past(bars, unified, day, 0),
        None => Stage::Done,
    }
}

fn find_today(bars: usize, unified: bool, now: i64) -> (stage: Stage)
    ensures
        stage@ == today_stage(bars as nat, unified, now as int),
        stage@ matches StageView::Past { day, scanned, cursor } ==> {
            &&& on_calendar(day as int)
            &&& second_of_day(day as int) == 0
            &&& scanned <= MAX_SCAN_DAYS
        },
{
    let (day, second) = match split_day(now) {
        Some(parts) => parts,
        None => return Stage::Done,
    };
    let (open, close) = session_of(unified);
    if second < open as i64 || is_weekend(day) {
        return find_before_today(bars, unified, now);
    }
    let cursor: u32 = if second <= close as i64 {
        second as u32
    } else {
        close
    };
    Stage::Today { cursor: write_hms(cursor) }
}

/// A request for bars.
#[derive(Debug)]
pub struct ScanRequest {
    pub path: &'static str,
    pub tr_id: &'static str,
    pub params: Vec<Param>,
}

/// Begins to gather the bars of a code.
pub fn candles_1m(code: &str, now: i64) -> (scan: CandleScan)
    ensures
        scan@ == ScanView::start(code@, now as int),
        scan@.wf(),
{
    let all: Vec<Candle> = Vec::new();
    CandleScan {
        code: code.to_owned(),
        unified: true,
        all,
        stage: find_today(0, true, now),
    }
}

fn append_all(all: &mut Vec<Candle>, more: &Vec<Candle>)
    ensures
        final(all)@ == old(all)@ + more@,
{
    let ghost start = all@;
    let mut i: usize = 0;
    while i < more.len()
        invariant
            i <= more@.len(),
            all@ == start + more@.take(i as int),
        decreases more@.len() - i,
    {
        all.push(more[i]);
        i += 1;
        assert(start + more@.take(i as int) =~= (start + more@.take(i - 1)).push(more@[i - 1]));
    }
    assert(more@.take(i as int) =~= more@);
}

impl CandleScan {
    /// What to ask next, or nothing where the scan is done.
    pub fn request(&self) -> (request: Option<ScanRequest>)
        requires
            self@.wf(),
        ensures
            match request {
                Some(request) => {
                    &&& self@.query() == Some(param_views(request.params@))
                    &&& request.path@ == (if self@.stage is Today {
                        PATH_TODAY_MIN@
                    } else {
                        PATH_DAILY_MIN@
                    })
                    &&& request.tr_id@ == (if self@.stage is Today {
                        TR_TODAY_MIN@
                    } else {
                        TR_DAILY_MIN@
                    })
                },
                None => self@.stage is Done,
            },
    {
        let mut params: Vec<Param> = Vec::new();
        match &self.stage {
            Stage::Today { cursor } => {
                params.push(param("FID_ETC_CLS_CODE", ""));
                params.push(param("FID_COND_MRKT_DIV_CODE", venue_text(self.unified)));
                params.push(param("FID_INPUT_ISCD", self.code.as_str()));
                params.push(param("FID_INPUT_HOUR_1", cursor.as_str()));
                params.push(param("FID_PW_DATA_INCU_YN", "Y"));
                assert(param_views(params@) =~= self@.query()->0);
                Some(ScanRequest { path: PATH_TODAY_MIN, tr_id: TR_TODAY_MIN, params })
            },
            Stage::Past { day, scanned: _, cursor } => {
                let date = match date_text(*day) {
                    Some(date) => date,
                    None => String::new(),
                };
                params.push(param("FID_COND_MRKT_DIV_CODE", venue_text(self.unified)));
                params.push(param("FID_INPUT_ISCD", self.code.as_str()));
                params.push(param("FID_INPUT_DATE_1", date.as_str()));
                params.push(param("FID_INPUT_HOUR_1", cursor.as_str()));
                params.push(param("FID_PW_DATA_INCU_YN", "Y"));
                params.push(param("FID_FAKE_TICK_INCU_YN", ""));
                assert(param_views(params@) =~= self@.query()->0);
                Some(ScanRequest { path: PATH_DAILY_MIN, tr_id: TR_DAILY_MIN, params })
            },
            Stage::Done => None,
        }
    }

    fn fall_back(self, now: i64, error: AppError) -> (scan: AppResult<CandleScan>)
        requires
            self@.wf(),
        ensures
            match self@.failed(now as int) {
                Some(next) => scan matches Ok(s) && s@ == next && s@.wf(),
                None => scan == Err::<CandleScan, AppError>(error),
            },
    {
        if !self.unified {
            return Err(error);
        }
        let CandleScan { code, unified: _, all, stage } = self;
        match stage {
            Stage::Today { cursor: _ } => {
                let all: Vec<Candle> = Vec::new();
                Ok(CandleScan { code, unified: false, all, stage: find_today(0, false, now) })
            },
            Stage::Past { day, scanned, cursor: _ } => {
                let (_, close) = session_of(false);
                let stage = Stage::Past { day, scanned, cursor: write_hms(close) };
                Ok(CandleScan { code, unified: false, all, stage })
            },
            Stage::Done => Err(error),
        }
    }

    /// Takes in a reply, or that there was none.
    pub fn accept(self, now: i64, reply: AppResult<Json>) -> (scan: AppResult<CandleScan>)
        requires
            self@.wf(),
        ensures
            match reply {
                Ok(v) => if v@.text_field("rt_cd"@) == Some("0"@) {
                    scan matches Ok(s) && s@ == self@.paged(now as int, listed_rows(v@, "output2"@))
                        && s@.wf()
                } else {
                    match self@.failed(now as int) {
                        Some(next) => scan matches Ok(s) && s@ == next && s@.wf(),
                        None => scan matches Err(error) && checked(v@, Err(error)),
                    }
                },
                Err(error) => match self@.failed(now as int) {
                    Some(next) => scan matches Ok(s) && s@ == next && s@.wf(),
                    None => scan == Err::<CandleScan, AppError>(error),
                },
            },
    {
        let v = match reply {
            Ok(v) => v,
            Err(error) => return self.fall_back(now, error),
        };
        let (open, _) = session_of(self.unified);
        let page = match read_minutes(&v, open) {
            Ok(page) => page,
            Err(error) => return self.fall_back(now, error),
        };
        let ghost told = listed_rows(v@, "output2"@);
        let MinutePage { candles, rows, next } = page;
        let CandleScan { code, unified, all, stage } = self;
        let mut all = all;
        match stage {
            Stage::Today { cursor: _ } => {
                append_all(&mut all, &candles);
                let stage = match next {
                    Some(cursor) => if rows >= TODAY_PAGE {
                        Stage::Today { cursor }
                    } else {
                        find_before_today(all.len(), unified, now)
                    },
                    None => find_before_today(all.len(), unified, now),
                };
                Ok(CandleScan { code, unified, all, stage })
            },
            Stage::Past { day, scanned, cursor: _ } => {
                append_all(&mut all, &candles);
                let stage = match next {
                    Some(cursor) => if rows >= PAST_PAGE {
                        Stage::Past { day, scanned, cursor }
                    } else {
                        find_past(all.len(), unified, day, scanned)
                    },
                    None => find_past(all.len(), unified, day, scanned),
                };
                Ok(CandleScan { code, unified, all, stage })
            },
            Stage::Done => Ok(CandleScan { code, unified, all, stage: Stage::Done }),
        }
    }

    /// The bars in the order of their times, the first that came of each time.
    pub fn finish(self) -> (bars: Vec<Candle>)
        ensures
            bars@ == one_each(by_time(self@.all)),
    {
        let sorted = sort_by_time(&self.all);
        let mut bars: Vec<Candle> = Vec::new();
        let mut i: usize = 0;
        assert(sorted@.take(0) =~= Seq::empty());
        while i < sorted.len()
            invariant
                i <= sorted@.len(),
                bars@ == one_each(sorted@.take(i as int)),
            decreases sorted@.len() - i,
        {
            assert(sorted@.take(i + 1).drop_last() =~= sorted@.take(i as int));
            let bar = sorted[i];
            if bars.len() == 0 || bars[bars.len() - 1].time != bar.time {
                bars.push(bar);
            }
            i += 1;
        }
        assert(sorted@.take(i as int) =~= sorted@);
        bars
    }
}

/// Bars without those that have the time of the one kept before.
pub open spec fn one_each(bars: Seq<Candle>) -> Seq<Candle>
    decreases bars.len(),
{
    if bars.len() == 0 {
        bars
    } else {
        let kept = one_each(bars.drop_last());
        if kept.len() == 0 || kept.last().time != bars.last().time {
            kept.push(bars.last())
        } else {
            kept
        }
    }
}

/// Times that rise from bar to bar.
pub open spec fn rising(bars: Seq<Candle>) -> bool {
    forall|i: int, j: int|
        0 <= i < j < bars.len() ==> (#[trigger] bars[i]).time < (#[trigger] bars[j]).time
}

/// Whether some bar has a time.
pub open spec fn has_time(bars: Seq<Candle>, time: i64) -> bool {
    exists|k: int| 0 <= k < bars.len() && (#[trigger] bars[k]).time == time
}

proof fn lemma_one_each_rises(bars: Seq<Candle>)
    requires
        ascending(bars),
    ensures
        rising(one_each(bars)),
        bars.len() > 0 ==> one_each(bars).len() > 0 && one_each(bars).last().time
            == bars.last().time,
    decreases bars.len(),
{
    if bars.len() > 0 {
        let front = bars.drop_last();
        lemma_one_each_rises(front);
        let kept = one_each(front);
        if front.len() > 0 {
            assert(bars[front.len() - 1].time <= bars[bars.len() - 1].time);
        }
        if kept.len() > 0 {
            assert(front.len() > 0) by {
                if front.len() == 0 {
                    assert(kept.len() == 0);
                }
            }
        }
    }
}

proof fn lemma_one_each_has(bars: Seq<Candle>, i: int)
    requires
        0 <= i < bars.len(),
    ensures
        has_time(one_each(bars), bars[i].time),
    decreases bars.len(),
{
    let front = bars.drop_last();
    let kept = one_each(front);
    let all = one_each(bars);
    if i < front.len() {
        lemma_one_each_has(front, i);
        let k = choose|k: int| 0 <= k < kept.len() && (#[trigger] kept[k]).time == front[i].time;
        assert(all[k] == kept[k]);
    } else {
        assert(all[all.len() - 1].time == bars[i].time);
    }
}

proof fn lemma_one_each_of(bars: Seq<Candle>, i: int)
    requires
        0 <= i < one_each(bars).len(),
    ensures
        bars.contains(one_each(bars)[i]),
    decreases bars.len(),
{
    if bars.len() > 0 {
        let front = bars.drop_last();
        let kept = one_each(front);
        if i < kept.len() {
            lemma_one_each_of(front, i);
            let k = choose|k: int| 0 <= k < front.len() && front[k] == kept[i];
            assert(bars[k] == kept[i]);
        } else {
            assert(bars[bars.len() - 1] == one_each(bars)[i]);
        }
    }
}

/// A scan's bars rise in time, each is one that came, and every time that a bar came for has one.
pub proof fn bars_rise(all: Seq<Candle>)
    ensures
        rising(one_each(by_time(all))),
        forall|i: int|
            0 <= i < one_each(by_time(all)).len() ==> by_time(all).contains(
                #[trigger] one_each(by_time(all))[i],
            ),
        forall|i: int|
            0 <= i < all.len() ==> has_time(
                one_each(by_time(all)),
                (#[trigger] by_time(all)[i]).time,
            ),
{
    by_time_orders(all);
    let sorted = by_time(all);
    lemma_one_each_rises(sorted);
    assert forall|i: int| 0 <= i < one_each(sorted).len() implies sorted.contains(
        #[trigger] one_each(sorted)[i],
    ) by {
        lemma_one_each_of(sorted, i);
    }
    assert forall|i: int| 0 <= i < all.len() implies has_time(
        one_each(sorted),
        (#[trigger] sorted[i]).time,
    ) by {
        lemma_one_each_has(sorted, i);
    }
}

/// A scan that has enough bars asks for no further day, and none goes back more than fifteen.
pub proof fn scans_end(bars: nat, unified: bool, day: int, scanned: int)
    requires
        0 <= scanned,
    ensures
        bars >= MIN_BARS ==> past_stage(bars, unified, day, scanned) == StageView::Done,
        match past_stage(bars, unified, day, scanned) {
            StageView::Past { day: _, scanned: next, cursor: _ } => scanned < next
                <= MAX_SCAN_DAYS,
            _ => true,
        },
    decreases MAX_SCAN_DAYS - scanned,
{
    if bars < MIN_BARS && scanned < MAX_SCAN_DAYS && on_calendar(day - 86_400) && weekend(
        day - 86_400,
    ) {
        scans_end(bars, unified, day - 86_400, scanned + 1);
    }
}

} // verus!
