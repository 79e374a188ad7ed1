//! Questions about orders, page by page.

use vstd::prelude::*;

use crate::broker::{
    BrokerFill, BrokerFillView, BrokerOpenOrder, BrokerOrderStatus, OpenOrderView, OrderStatusView,
};
use crate::clock::{joined as joined_time, kst_str_to_fake_epoch, parsed_date, parsed_time};
use crate::error::{is_parse, AppError, AppResult};
use crate::json::{Json, JsonView};
use crate::kis::account::listed_rows;
use crate::kis::calendar::{eight_digits, is_eight_digits};
use crate::kis::numbers::{
    field_number, fine_of, num_billionths, num_u64, plain_text, to_fine, whole_of, write_plain,
};
use crate::kis::rest::{checked, param, param_views, KisRest, Param, RestPage};
use crate::tables::rows;
use crate::text::{decimal, digits, joined, same, trim, trimmed};
use crate::types::Side;

verus! {

pub const PATH_DAILY: &'static str = "/uapi/domestic-stock/v1/trading/inquire-daily-ccld";

pub const TR_DAILY: &'static str = "TTTC0081R";

pub const PATH_OPEN: &'static str = "/uapi/domestic-stock/v1/trading/inquire-psbl-rvsecncl";

pub const TR_OPEN: &'static str = "TTTC0084R";

/// How many pages of one answer are read at most.
pub const MAX_PAGES: u32 = 20;

/// The text of a field, or none of it where there is no text.
pub open spec fn row_text(row: JsonView, name: Seq<char>) -> Seq<char> {
    match row.text_field(name) {
        Some(text) => text,
        None => Seq::empty(),
    }
}

fn field_text(row: &Json, name: &str) -> (text: String)
    ensures
        text@ == row_text(row@, name@),
{
    match row.get_str(name) {
        Some(text) => text.to_owned(),
        None => String::new(),
    }
}

fn field_trimmed(row: &Json, name: &str) -> (text: String)
    ensures
        text@ == trimmed(row_text(row@, name@)),
{
    trim(field_text(row, name).as_str())
}

/// The side that a field tells.
pub open spec fn side_of(row: JsonView) -> Option<Side> {
    let text = row_text(row, "sll_buy_dvsn_cd"@);
    if text == "01"@ {
        Some(Side::Sell)
    } else if text == "02"@ {
        Some(Side::Buy)
    } else {
        None
    }
}

pub open spec fn side_fault(row: JsonView) -> Seq<char> {
    "일별 주문체결의 매도매수 구분값이 올바르지 않습니다: "@ + row_text(row, "sll_buy_dvsn_cd"@)
}

/// The side that a row tells.
pub fn exact_side(row: &Json) -> (side: AppResult<Side>)
    ensures
        match side {
            Ok(side) => side_of(row@) == Some(side),
            Err(error) => side_of(row@) is None && is_parse(error, side_fault(row@)),
        },
{
    let text = field_text(row, "sll_buy_dvsn_cd");
    if same(text.as_str(), "01") {
        Ok(Side::Sell)
    } else if same(text.as_str(), "02") {
        Ok(Side::Buy)
    } else {
        Err(
            AppError::Parse(
                joined(
                    "일별 주문체결의 매도매수 구분값이 올바르지 않습니다: ",
                    text.as_str(),
                ),
            ),
        )
    }
}

/// The time that a field tells on a day.
pub open spec fn time_of(row: JsonView, name: Seq<char>, date: Seq<char>) -> Option<i64> {
    match row.text_field(name) {
        Some(time) => joined_time(parsed_date(date), parsed_time(time)),
        None => None,
    }
}

fn field_time(row: &Json, name: &str, date: &str) -> (at: Option<i64>)
    ensures
        at == time_of(row@, name@, date@),
{
    match row.get_str(name) {
        Some(time) => kst_str_to_fake_epoch(date, time),
        None => None,
    }
}

/// When something was filled: at the time of the notice, or, where that is none, of the order.
pub open spec fn filled_time(row: JsonView, date: Seq<char>) -> i64 {
    match time_of(row, "infm_tmd"@, date) {
        Some(at) => at,
        None => match time_of(row, "ord_tmd"@, date) {
            Some(at) => at,
            None => 0,
        },
    }
}

/// When something was filled. The time of the notice is closer to the fill than that of the order,
/// but is missing or unreadable in some answers.
pub fn fill_timestamp(row: &Json, trading_date: &str) -> (at: i64)
    ensures
        at == filled_time(row@, trading_date@),
{
    match field_time(row, "infm_tmd", trading_date) {
        Some(at) => at,
        None => match field_time(row, "ord_tmd", trading_date) {
            Some(at) => at,
            None => 0,
        },
    }
}

/// Shares that were taken back: under the name that the broker gives it, or a misspelling of it.
pub open spec fn cancelled(row: JsonView) -> u64 {
    match row.field("cnc_cfrm_qty"@) {
        Some(value) => whole_of(field_number(Some(value))),
        None => whole_of(field_number(row.field("cncl_cfrm_qty"@))),
    }
}

/// What a row tells of one order of a day: nothing where it is of another order or another day, and
/// a fault where it is of this one and cannot be read.
pub open spec fn row_status(row: JsonView, date: Seq<char>, order_no: Seq<char>) -> Result<
    Option<OrderStatusView>,
    Seq<char>,
> {
    row_status_at(
        row,
        date,
        order_no,
        joined_time(parsed_date(date), parsed_time(row_text(row, "ord_tmd"@))),
    )
}

/// What a row tells of one order of a day, given the time that its own comes to.
pub open spec fn row_status_at(
    row: JsonView,
    date: Seq<char>,
    order_no: Seq<char>,
    at: Option<i64>,
) -> Result<Option<OrderStatusView>, Seq<char>> {
    let row_date = trimmed(row_text(row, "ord_dt"@));
    let time = row_text(row, "ord_tmd"@);
    if trimmed(row_text(row, "odno"@)) != order_no {
        Ok(None)
    } else if row_date.len() > 0 && row_date != date {
        Ok(None)
    } else {
        match at {
            None => Err(
                "일별 주문체결의 주문시각이 올바르지 않습니다: "@ + date + " "@ + time,
            ),
            Some(ordered_at) => match side_of(row) {
                None => Err(side_fault(row)),
                Some(side) => Ok(
                    Some(
                        OrderStatusView {
                            trading_date: date,
                            order_no,
                            original_order_no: trimmed(row_text(row, "orgn_odno"@)),
                            org_no: trimmed(row_text(row, "ord_gno_brno"@)),
                            code: trimmed(row_text(row, "pdno"@)),
                            side,
                            ordered_qty: whole_of(field_number(row.field("ord_qty"@))),
                            filled_qty: whole_of(field_number(row.field("tot_ccld_qty"@))),
                            cancelled_qty: cancelled(row),
                            remaining_qty: whole_of(field_number(row.field("rmn_qty"@))),
                            rejected_qty: whole_of(field_number(row.field("rjct_qty"@))),
                            avg_fill_price: fine_of(field_number(row.field("avg_prvs"@))),
                            ordered_at,
                        },
                    ),
                ),
            },
        }
    }
}

pub open spec fn status_view(status: Option<BrokerOrderStatus>) -> Option<OrderStatusView> {
    match status {
        Some(status) => Some(status@),
        None => None,
    }
}

/// Reads what a row tells of one order of a day.
pub fn parse_exact_order_status(row: &Json, trading_date: &str, expected_order_no: &str) -> (status:
    AppResult<Option<BrokerOrderStatus>>)
    ensures
        match row_status(row@, trading_date@, expected_order_no@) {
            Ok(told) => status matches Ok(s) && status_view(s) == told,
            Err(text) => status matches Err(error) && is_parse(error, text),
        },
{
    let time = field_text(row, "ord_tmd");
    let at = kst_str_to_fake_epoch(trading_date, time.as_str());
    order_status_at(row, trading_date, expected_order_no, at)
}

/// Reads what a row tells of one order of a day, given the time that its own comes to.
pub fn order_status_at(
    row: &Json,
    trading_date: &str,
    expected_order_no: &str,
    at: Option<i64>,
) -> (status: AppResult<Option<BrokerOrderStatus>>)
    ensures
        match row_status_at(row@, trading_date@, expected_order_no@, at) {
            Ok(told) => status matches Ok(s) && status_view(s) == told,
            Err(text) => status matches Err(error) && is_parse(error, text),
        },
{
    let order_no = field_trimmed(row, "odno");
    if !same(order_no.as_str(), expected_order_no) {
        return Ok(None);
    }
    let row_date = field_trimmed(row, "ord_dt");
    if row_date.as_str().unicode_len() > 0 && !same(row_date.as_str(), trading_date) {
        return Ok(None);
    }
    let time = field_text(row, "ord_tmd");
    let ordered_at: i64 = match at {
        Some(at) => at,
        None => {
            let mut text = joined(
                "일별 주문체결의 주문시각이 올바르지 않습니다: ",
                trading_date,
            );
            text.append(" ");
            text.append(time.as_str());
            return Err(AppError::Parse(text));
        },
    };
    let side = match exact_side(row) {
        Ok(side) => side,
        Err(error) => return Err(error),
    };
    let cancelled_qty: u64 = match row.get("cnc_cfrm_qty") {
        Some(value) => num_u64(Some(value)),
        None => num_u64(row.get("cncl_cfrm_qty")),
    };
    Ok(
        Some(
            BrokerOrderStatus {
                trading_date: trading_date.to_owned(),
                order_no,
                original_order_no: field_trimmed(row, "orgn_odno"),
                org_no: field_trimmed(row, "ord_gno_brno"),
                code: field_trimmed(row, "pdno"),
                side,
                ordered_qty: num_u64(row.get("ord_qty")),
                filled_qty: num_u64(row.get("tot_ccld_qty")),
                cancelled_qty,
                remaining_qty: num_u64(row.get("rmn_qty")),
                rejected_qty: num_u64(row.get("rjct_qty")),
                avg_fill_price: to_fine(num_billionths(row.get("avg_prvs"))),
                ordered_at,
            },
        ),
    )
}

/// Where the reading of an answer's pages stands.
#[derive(Debug)]
pub struct Paging {
    fk: String,
    nk: String,
    pages: u32,
    done: bool,
}

#[verifier::ext_equal]
pub struct PagingView {
    /// The keys that the next page is asked for with.
    pub fk: Seq<char>,
    pub nk: Seq<char>,
    /// How many pages were read.
    pub pages: u32,
    pub done: bool,
}

impl View for Paging {
    type V = PagingView;

    closed spec fn view(&self) -> PagingView {
        PagingView { fk: self.fk@, nk: self.nk@, pages: self.pages, done: self.done }
    }
}

/// Whether no page follows: the header says so, or there is no key to ask for one.
pub open spec fn is_last(page: RestPage) -> bool {
    ||| page.tr_cont@.len() == 0
    ||| page.tr_cont@ == "D"@
    ||| row_text(page.body@, "ctx_area_fk100"@).len() == 0 && row_text(
        page.body@,
        "ctx_area_nk100"@,
    ).len() == 0
}

impl PagingView {
    pub open spec fn start() -> PagingView {
        PagingView { fk: Seq::empty(), nk: Seq::empty(), pages: 0, done: false }
    }

    /// After a page was read.
    pub open spec fn turned(self, page: RestPage) -> PagingView {
        PagingView {
            fk: row_text(page.body@, "ctx_area_fk100"@),
            nk: row_text(page.body@, "ctx_area_nk100"@),
            pages: if self.pages < MAX_PAGES {
                (self.pages + 1) as u32
            } else {
                self.pages
            },
            done: is_last(page) || self.pages + 1 >= MAX_PAGES,
        }
    }

    /// The header that asks for a page after the first.
    pub open spec fn header(self) -> Option<Seq<char>> {
        if self.pages > 0 {
            Some("N"@)
        } else {
            None
        }
    }
}

impl Paging {
    fn new() -> (paging: Self)
        ensures
            paging@ == PagingView::start(),
    {
        Paging { fk: String::new(), nk: String::new(), pages: 0, done: false }
    }

    fn turn(self, page: &RestPage) -> (paging: Self)
        ensures
            paging@ == self@.turned(*page),
    {
        let fk = field_text(&page.body, "ctx_area_fk100");
        let nk = field_text(&page.body, "ctx_area_nk100");
        let last = page.tr_cont.as_str().unicode_len() == 0 || same(page.tr_cont.as_str(), "D") || (
        fk.as_str().unicode_len() == 0 && nk.as_str().unicode_len() == 0);
        let pages: u32 = if self.pages < MAX_PAGES {
            self.pages + 1
        } else {
            self.pages
        };
        Paging { fk, nk, pages, done: last || pages >= MAX_PAGES }
    }

    fn header(&self) -> (header: Option<&'static str>)
        ensures
            match header {
                Some(text) => self@.header() == Some(text@),
                None => self@.header() is None,
            },
    {
        if self.pages > 0 {
            Some("N")
        } else {
            None
        }
    }
}

/// Reading ends: each page counts, and after twenty there is no more.
pub proof fn pages_end(paging: PagingView, page: RestPage)
    requires
        paging.pages < MAX_PAGES,
    ensures
        paging.turned(page).pages == paging.pages + 1,
        paging.turned(page).pages == MAX_PAGES ==> paging.turned(page).done,
{
}

/// What is asked about a day's orders.
pub open spec fn daily_query(
    cano: Seq<char>,
    prdt: Seq<char>,
    date: Seq<char>,
    filled: Seq<char>,
    order_no: Seq<char>,
    paging: PagingView,
) -> Seq<(Seq<char>, Seq<char>)> {
    seq![
        ("CANO"@, cano),
        ("ACNT_PRDT_CD"@, prdt),
        ("INQR_STRT_DT"@, date),
        ("INQR_END_DT"@, date),
        ("SLL_BUY_DVSN_CD"@, "00"@),
        ("INQR_DVSN"@, "00"@),
        ("PDNO"@, ""@),
        ("CCLD_DVSN"@, filled),
        ("ORD_GNO_BRNO"@, ""@),
        ("ODNO"@, order_no),
        ("INQR_DVSN_3"@, "00"@),
        ("INQR_DVSN_1"@, ""@),
        ("EXCG_ID_DVSN_CD"@, "ALL"@),
        ("CTX_AREA_FK100"@, paging.fk),
        ("CTX_AREA_NK100"@, paging.nk),
    ]
}

fn daily_params(cano: &str, prdt: &str, date: &str, filled: &str, order_no: &str, paging: &Paging)
    -> (params: Vec<Param>)
    ensures
        param_views(params@) == daily_query(cano@, prdt@, date@, filled@, order_no@, paging@),
{
    let mut params: Vec<Param> = Vec::new();
    params.push(param("CANO", cano));
    params.push(param("ACNT_PRDT_CD", prdt));
    params.push(param("INQR_STRT_DT", date));
    params.push(param("INQR_END_DT", date));
    params.push(param("SLL_BUY_DVSN_CD", "00"));
    params.push(param("INQR_DVSN", "00"));
    params.push(param("PDNO", ""));
    params.push(param("CCLD_DVSN", filled));
    params.push(param("ORD_GNO_BRNO", ""));
    params.push(param("ODNO", order_no));
    params.push(param("INQR_DVSN_3", "00"));
    params.push(param("INQR_DVSN_1", ""));
    params.push(param("EXCG_ID_DVSN_CD", "ALL"));
    params.push(param("CTX_AREA_FK100", paging.fk.as_str()));
    params.push(param("CTX_AREA_NK100", paging.nk.as_str()));
    assert(param_views(params@) =~= daily_query(
        cano@,
        prdt@,
        date@,
        filled@,
        order_no@,
        paging@,
    ));
    params
}

/// What rows tell of one order after what was told before: a fault where a row cannot be read, or
/// two tell different things.
pub open spec fn merged(
    told: Seq<JsonView>,
    before: Option<OrderStatusView>,
    date: Seq<char>,
    order_no: Seq<char>,
) -> Result<Option<OrderStatusView>, Seq<char>>
    decreases told.len(),
{
    if told.len() == 0 {
        Ok(before)
    } else {
        match merged(told.drop_last(), before, date, order_no) {
            Err(text) => Err(text),
            Ok(found) => match row_status(told.last(), date, order_no) {
                Err(text) => Err(text),
                Ok(None) => Ok(found),
                Ok(Some(status)) => if found is Some && found->0 != status {
                    Err(
                        "같은 주문번호의 일별 주문상태가 서로 다릅니다: "@ + date + "/"@ + order_no,
                    )
                } else {
                    Ok(Some(status))
                },
            },
        }
    }
}

proof fn lemma_merged_fault(
    told: Seq<JsonView>,
    before: Option<OrderStatusView>,
    date: Seq<char>,
    order_no: Seq<char>,
    i: int,
)
    requires
        0 <= i <= told.len(),
        merged(told.take(i), before, date, order_no) is Err,
    ensures
        merged(told, before, date, order_no) == merged(told.take(i), before, date, order_no),
    decreases told.len() - i,
{
    if i < told.len() {
        assert(told.take(i + 1).drop_last() =~= told.take(i));
        lemma_merged_fault(told, before, date, order_no, i + 1);
    } else {
        assert(told.take(i) =~= told);
    }
}

/// What is told of an order is of that order and that day.
pub proof fn status_is_of_the_order(
    told: Seq<JsonView>,
    before: Option<OrderStatusView>,
    date: Seq<char>,
    order_no: Seq<char>,
)
    requires
        before is Some ==> before->0.order_no == order_no && before->0.trading_date == date,
    ensures
        match merged(told, before, date, order_no) {
            Ok(Some(status)) => status.order_no == order_no && status.trading_date == date,
            _ => true,
        },
    decreases told.len(),
{
    if told.len() > 0 {
        status_is_of_the_order(told.drop_last(), before, date, order_no);
    }
}

/// Asks where one order of a day stands.
///
/// All orders are asked for, not only filled ones, so that a rejection and a cancellation can be
/// told from a fill that is late. The broker's choice is not relied on: the number and the day of
/// each row are looked at again.
#[derive(Debug)]
pub struct OrderStatusQuery {
    trading_date: String,
    order_no: String,
    paging: Paging,
    result: Option<BrokerOrderStatus>,
}

#[verifier::ext_equal]
pub struct StatusQueryView {
    pub trading_date: Seq<char>,
    pub order_no: Seq<char>,
    pub paging: PagingView,
    pub result: Option<OrderStatusView>,
}

impl View for OrderStatusQuery {
    type V = StatusQueryView;

    closed spec fn view(&self) -> StatusQueryView {
        StatusQueryView {
            trading_date: self.trading_date@,
            order_no: self.order_no@,
            paging: self.paging@,
            result: status_view(self.result),
        }
    }
}

/// Begins to ask where one order of a day stands.
pub fn order_status(trading_date: &str, order_no: &str) -> (query: AppResult<OrderStatusQuery>)
    ensures
        match query {
            Ok(query) => {
                &&& eight_digits(trading_date@)
                &&& trimmed(order_no@).len() > 0
                &&& query@ == (StatusQueryView {
                    trading_date: trading_date@,
                    order_no: trimmed(order_no@),
                    paging: PagingView::start(),
                    result: None,
                })
            },
            Err(error) => if !eight_digits(trading_date@) {
                is_parse(error, "주문일자는 YYYYMMDD 형식이어야 합니다: "@ + trading_date@)
            } else {
                trimmed(order_no@).len() == 0 && is_parse(
                    error,
                    "조회할 주문번호가 비어 있습니다"@,
                )
            },
        },
{
    if !is_eight_digits(trading_date) {
        return Err(
            AppError::Parse(
                joined("주문일자는 YYYYMMDD 형식이어야 합니다: ", trading_date),
            ),
        );
    }
    let order_no = trim(order_no);
    if order_no.as_str().unicode_len() == 0 {
        return Err(AppError::Parse("조회할 주문번호가 비어 있습니다".to_owned()));
    }
    Ok(
        OrderStatusQuery {
            trading_date: trading_date.to_owned(),
            order_no,
            paging: Paging::new(),
            result: None,
        },
    )
}

impl OrderStatusQuery {
    /// What to ask next.
    pub fn params(&self, cano: &str, prdt: &str) -> (params: Vec<Param>)
        ensures
            param_views(params@) == daily_query(
                cano@,
                prdt@,
                self@.trading_date,
                "00"@,
                self@.order_no,
                self@.paging,
            ),
    {
        daily_params(
            cano,
            prdt,
            self.trading_date.as_str(),
            "00",
            self.order_no.as_str(),
            &self.paging,
        )
    }

    /// The header to ask with.
    pub fn tr_cont(&self) -> (header: Option<&'static str>)
        ensures
            match header {
                Some(text) => self@.paging.header() == Some(text@),
                None => self@.paging.header() is None,
            },
    {
        self.paging.header()
    }

    /// Whether nothing is left to ask.
    pub fn finished(&self) -> (yes: bool)
        ensures
            yes == self@.paging.done,
    {
        self.paging.done
    }

    /// What was told.
    pub fn into_result(self) -> (result: Option<BrokerOrderStatus>)
        ensures
            status_view(result) == self@.result,
    {
        self.result
    }

    /// Takes in a page.
    pub fn accept(self, page: &RestPage) -> (query: AppResult<OrderStatusQuery>)
        ensures
            ({
                let told = merged(
                    listed_rows(page.body@, "output1"@),
                    self@.result,
                    self@.trading_date,
                    self@.order_no,
                );
                match query {
                    Ok(query) => {
                        &&& page.body@.text_field("rt_cd"@) == Some("0"@)
                        &&& told matches Ok(result) && query@ == (StatusQueryView {
                            paging: self@.paging.turned(*page),
                            result,
                            ..self@
                        })
                    },
                    Err(error) => if page.body@.text_field("rt_cd"@) != Some("0"@) {
                        checked(page.body@, Err(error))
                    } else {
                        told matches Err(text) && is_parse(error, text)
                    },
                }
            }),
    {
        if let Err(error) = KisRest::check_rt(&page.body) {
            return Err(error);
        }
        let ghost start = status_view(self.result);
        let OrderStatusQuery { trading_date, order_no, paging, result } = self;
        let mut result = result;
        if let Some(items) = page.body.get_array("output1") {
            let mut i: usize = 0;
            assert(rows(items@).take(0) =~= Seq::empty());
            while i < items.len()
                invariant
                    i <= items@.len(),
                    rows(items@) == listed_rows(page.body@, "output1"@),
                    page.body@.text_field("rt_cd"@) == Some("0"@),
                    start == self@.result,
                    trading_date@ == self@.trading_date,
                    order_no@ == self@.order_no,
                    merged(rows(items@).take(i as int), start, trading_date@, order_no@) == Ok::<
                        Option<OrderStatusView>,
                        Seq<char>,
                    >(status_view(result)),
                decreases items@.len() - i,
            {
                assert(rows(items@).take(i + 1).drop_last() =~= rows(items@).take(i as int));
                assert(rows(items@)[i as int] == items@[i as int]@);
                match parse_exact_order_status(
                    &items[i],
                    trading_date.as_str(),
                    order_no.as_str(),
                ) {
                    Err(error) => {
                        proof {
                            lemma_merged_fault(rows(items@), start, trading_date@, order_no@, i + 1);
                        }
                        return Err(error);
                    },
                    Ok(None) => {},
                    Ok(Some(status)) => {
                        let differs = match &result {
                            Some(existing) => !existing.same_as(&status),
                            None => false,
                        };
                        if differs {
                            proof {
                                lemma_merged_fault(rows(items@), start, trading_date@, order_no@, i + 1);
                            }
                            let mut text = joined(
                                "같은 주문번호의 일별 주문상태가 서로 다릅니다: ",
                                trading_date.as_str(),
                            );
                            text.append("/");
                            text.append(order_no.as_str());
                            return Err(AppError::Parse(text));
                        }
                        result = Some(status);
                    },
                }
                i += 1;
            }
            assert(rows(items@).take(i as int) =~= rows(items@));
        }
        Ok(OrderStatusQuery { trading_date, order_no, paging: paging.turn(page), result })
    }
}

/// What rows give in turn, after what was gathered before: a fault where one cannot be read.
pub open spec fn gathered<V>(
    told: Seq<JsonView>,
    before: Seq<V>,
    f: spec_fn(JsonView) -> Result<Option<V>, Seq<char>>,
) -> Result<Seq<V>, Seq<char>>
    decreases told.len(),
{
    if told.len() == 0 {
        Ok(before)
    } else {
        match gathered(told.drop_last(), before, f) {
            Err(text) => Err(text),
            Ok(found) => match f(told.last()) {
                Err(text) => Err(text),
                Ok(None) => Ok(found),
                Ok(Some(v)) => Ok(found.push(v)),
            },
        }
    }
}

proof fn lemma_gathered_fault<V>(
    told: Seq<JsonView>,
    before: Seq<V>,
    f: spec_fn(JsonView) -> Result<Option<V>, Seq<char>>,
    i: int,
)
    requires
        0 <= i <= told.len(),
        gathered(told.take(i), before, f) is Err,
    ensures
        gathered(told, before, f) == gathered(told.take(i), before, f),
    decreases told.len() - i,
{
    if i < told.len() {
        assert(told.take(i + 1).drop_last() =~= told.take(i));
        lemma_gathered_fault(told, before, f, i + 1);
    } else {
        assert(told.take(i) =~= told);
    }
}

/// The fill that a row of a day tells of: none where nothing was filled.
pub open spec fn row_fill(date: Seq<char>) -> spec_fn(JsonView) -> Result<
    Option<BrokerFillView>,
    Seq<char>,
> {
    |row: JsonView|
        {
            let qty = whole_of(field_number(row.field("tot_ccld_qty"@)));
            let order_no = row_text(row, "odno"@);
            let average = field_number(row.field("avg_prvs"@));
            let filled_at = filled_time(row, date);
            if qty == 0 {
                Ok(None)
            } else if filled_at <= 0 {
                Err(
                    "일별 주문체결의 체결시각이 올바르지 않습니다: "@ + date + "/"@ + order_no,
                )
            } else {
                match side_of(row) {
                    None => Err(side_fault(row)),
                    Some(side) => Ok(
                        Some(
                            BrokerFillView {
                                fill_id: "daily:"@ + order_no + ":"@ + digits(qty as nat) + ":"@
                                    + plain_text(average),
                                order_no,
                                original_order_no: row_text(row, "orgn_odno"@),
                                org_no: row_text(row, "ord_gno_brno"@),
                                code: row_text(row, "pdno"@),
                                side,
                                qty,
                                price: fine_of(average),
                                filled_at,
                            },
                        ),
                    ),
                }
            }
        }
}

pub open spec fn fill_view(fill: Option<BrokerFill>) -> Option<BrokerFillView> {
    match fill {
        Some(fill) => Some(fill@),
        None => None,
    }
}

fn read_fill(row: &Json, date: &str) -> (fill: AppResult<Option<BrokerFill>>)
    ensures
        match row_fill(date@)(row@) {
            Ok(told) => fill matches Ok(f) && fill_view(f) == told,
            Err(text) => fill matches Err(error) && is_parse(error, text),
        },
{
    let qty: u64 = num_u64(row.get("tot_ccld_qty"));
    if qty == 0 {
        return Ok(None);
    }
    let order_no = field_text(row, "odno");
    let filled_at: i64 = fill_timestamp(row, date);
    if filled_at <= 0 {
        let mut text = joined("일별 주문체결의 체결시각이 올바르지 않습니다: ", date);
        text.append("/");
        text.append(order_no.as_str());
        return Err(AppError::Parse(text));
    }
    let side = match exact_side(row) {
        Ok(side) => side,
        Err(error) => return Err(error),
    };
    let average: i128 = num_billionths(row.get("avg_prvs"));
    let mut fill_id = joined("daily:", order_no.as_str());
    fill_id.append(":");
    fill_id.append(decimal(qty).as_str());
    fill_id.append(":");
    fill_id.append(write_plain(average).as_str());
    Ok(
        Some(
            BrokerFill {
                fill_id,
                order_no,
                original_order_no: field_text(row, "orgn_odno"),
                org_no: field_text(row, "ord_gno_brno"),
                code: field_text(row, "pdno"),
                side,
                qty,
                price: to_fine(average),
                filled_at,
            },
        ),
    )
}

/// Asks for all that was filled on a day.
#[derive(Debug)]
pub struct FillsQuery {
    date: String,
    paging: Paging,
    fills: Vec<BrokerFill>,
}

#[verifier::ext_equal]
pub struct FillsQueryView {
    pub date: Seq<char>,
    pub paging: PagingView,
    pub fills: Seq<BrokerFillView>,
}

impl View for FillsQuery {
    type V = FillsQueryView;

    closed spec fn view(&self) -> FillsQueryView {
        FillsQueryView { date: self.date@, paging: self.paging@, fills: rows(self.fills@) }
    }
}

/// Begins to ask for all that was filled on a day.
pub fn today_fills(date: &str) -> (query: FillsQuery)
    ensures
        query@ == (FillsQueryView {
            date: date@,
            paging: PagingView::start(),
            fills: Seq::empty(),
        }),
{
    let fills: Vec<BrokerFill> = Vec::new();
    assert(rows(fills@) =~= Seq::empty());
    FillsQuery { date: date.to_owned(), paging: Paging::new(), fills }
}

impl FillsQuery {
    /// What to ask next.
    pub fn params(&self, cano: &str, prdt: &str) -> (params: Vec<Param>)
        ensures
            param_views(params@) == daily_query(
                cano@,
                prdt@,
                self@.date,
                "01"@,
                ""@,
                self@.paging,
            ),
    {
        daily_params(cano, prdt, self.date.as_str(), "01", "", &self.paging)
    }

    /// The header to ask with.
    pub fn tr_cont(&self) -> (header: Option<&'static str>)
        ensures
            match header {
                Some(text) => self@.paging.header() == Some(text@),
                None => self@.paging.header() is None,
            },
    {
        self.paging.header()
    }

    /// Whether nothing is left to ask.
    pub fn finished(&self) -> (yes: bool)
        ensures
            yes == self@.paging.done,
    {
        self.paging.done
    }

    /// What was filled.
    pub fn into_fills(self) -> (fills: Vec<BrokerFill>)
        ensures
            rows(fills@) == self@.fills,
    {
        self.fills
    }

    /// Takes in a page.
    pub fn accept(self, page: &RestPage) -> (query: AppResult<FillsQuery>)
        ensures
            ({
                let told = gathered(
                    listed_rows(page.body@, "output1"@),
                    self@.fills,
                    row_fill(self@.date),
                );
                match query {
                    Ok(query) => {
                        &&& page.body@.text_field("rt_cd"@) == Some("0"@)
                        &&& told matches Ok(fills) && query@ == (FillsQueryView {
                            paging: self@.paging.turned(*page),
                            fills,
                            ..self@
                        })
                    },
                    Err(error) => if page.body@.text_field("rt_cd"@) != Some("0"@) {
                        checked(page.body@, Err(error))
                    } else {
                        told matches Err(text) && is_parse(error, text)
                    },
                }
            }),
    {
        if let Err(error) = KisRest::check_rt(&page.body) {
            return Err(error);
        }
        let ghost start = rows(self.fills@);
        let FillsQuery { date, paging, fills } = self;
        let mut fills = fills;
        let ghost f = row_fill(date@);
        if let Some(items) = page.body.get_array("output1") {
            let mut i: usize = 0;
            assert(rows(items@).take(0) =~= Seq::empty());
            while i < items.len()
                invariant
                    i <= items@.len(),
                    rows(items@) == listed_rows(page.body@, "output1"@),
                    page.body@.text_field("rt_cd"@) == Some("0"@),
                    start == self@.fills,
                    date@ == self@.date,
                    f == row_fill(date@),
                    gathered(rows(items@).take(i as int), start, f) == Ok::<
                        Seq<BrokerFillView>,
                        Seq<char>,
                    >(rows(fills@)),
                decreases items@.len() - i,
            {
                assert(rows(items@).take(i + 1).drop_last() =~= rows(items@).take(i as int));
                assert(rows(items@)[i as int] == items@[i as int]@);
                let ghost before = rows(fills@);
                match read_fill(&items[i], date.as_str()) {
                    Err(error) => {
                        proof {
                            lemma_gathered_fault(rows(items@), start, f, i + 1);
                        }
                        return Err(error);
                    },
                    Ok(None) => {},
                    Ok(Some(fill)) => {
                        fills.push(fill);
                        assert(rows(fills@) =~= before.push(fill@));
                    },
                }
                i += 1;
            }
            assert(rows(items@).take(i as int) =~= rows(items@));
        }
        Ok(FillsQuery { date, paging: paging.turn(page), fills })
    }
}

/// The time of day that a row tells of its order, midnight where it tells none.
pub open spec fn open_order_time(row: JsonView) -> Seq<char> {
    match row.text_field("ord_tmd"@) {
        Some(time) => time,
        None => "000000"@,
    }
}

/// What a row tells of an order of which something can be taken back, given the time that its own
/// comes to: nothing where nothing can, and a fault where it cannot be read.
pub open spec fn open_order_row(row: JsonView, date: Seq<char>, at: Option<i64>) -> Result<
    Option<OpenOrderView>,
    Seq<char>,
> {
    let cancelable_qty = whole_of(field_number(row.field("psbl_qty"@)));
    let order_no = row_text(row, "odno"@);
    if cancelable_qty == 0 {
        Ok(None)
    } else {
        match side_of(row) {
            None => Err(side_fault(row)),
            Some(side) => match at {
                None => Err(
                    "정정취소 가능 주문의 주문시각이 올바르지 않습니다: "@ + date + "/"@ + order_no,
                ),
                Some(ordered_at) => Ok(
                    Some(
                        OpenOrderView {
                            order_no,
                            original_order_no: row_text(row, "orgn_odno"@),
                            org_no: row_text(row, "ord_gno_brno"@),
                            code: row_text(row, "pdno"@),
                            side,
                            ordered_qty: whole_of(field_number(row.field("ord_qty"@))),
                            filled_qty: whole_of(field_number(row.field("tot_ccld_qty"@))),
                            cancelable_qty,
                            price: fine_of(field_number(row.field("ord_unpr"@))),
                            ordered_at,
                        },
                    ),
                ),
            },
        }
    }
}

/// The open order that a row tells of: none where nothing of it can be taken back.
pub open spec fn row_open_order(date: Seq<char>) -> spec_fn(JsonView) -> Result<
    Option<OpenOrderView>,
    Seq<char>,
> {
    |row: JsonView|
        open_order_row(
            row,
            date,
            joined_time(parsed_date(date), parsed_time(open_order_time(row))),
        )
}

pub open spec fn open_order_view(order: Option<BrokerOpenOrder>) -> Option<OpenOrderView> {
    match order {
        Some(order) => Some(order@),
        None => None,
    }
}

fn read_open_order(row: &Json, date: &str) -> (order: AppResult<Option<BrokerOpenOrder>>)
    ensures
        match row_open_order(date@)(row@) {
            Ok(told) => order matches Ok(o) && open_order_view(o) == told,
            Err(text) => order matches Err(error) && is_parse(error, text),
        },
{
    let at = match row.get_str("ord_tmd") {
        Some(time) => kst_str_to_fake_epoch(date, time),
        None => kst_str_to_fake_epoch(date, "000000"),
    };
    open_order_at(row, date, at)
}

/// Reads what a row tells of an order of which something can be taken back, given the time that its
/// own comes to.
pub fn open_order_at(row: &Json, date: &str, at: Option<i64>) -> (order: AppResult<
    Option<BrokerOpenOrder>,
>)
    ensures
        match open_order_row(row@, date@, at) {
            Ok(told) => order matches Ok(o) && open_order_view(o) == told,
            Err(text) => order matches Err(error) && is_parse(error, text),
        },
{
    let cancelable_qty: u64 = num_u64(row.get("psbl_qty"));
    if cancelable_qty == 0 {
        return Ok(None);
    }
    let side = match exact_side(row) {
        Ok(side) => side,
        Err(error) => return Err(error),
    };
    let order_no = field_text(row, "odno");
    let ordered_at: i64 = match at {
        Some(at) => at,
        None => {
            let mut text = joined(
                "정정취소 가능 주문의 주문시각이 올바르지 않습니다: ",
                date,
            );
            text.append("/");
            text.append(order_no.as_str());
            return Err(AppError::Parse(text));
        },
    };
    Ok(
        Some(
            BrokerOpenOrder {
                order_no,
                original_order_no: field_text(row, "orgn_odno"),
                org_no: field_text(row, "ord_gno_brno"),
                code: field_text(row, "pdno"),
                side,
                ordered_qty: num_u64(row.get("ord_qty")),
                filled_qty: num_u64(row.get("tot_ccld_qty")),
                cancelable_qty,
                price: to_fine(num_billionths(row.get("ord_unpr"))),
                ordered_at,
            },
        ),
    )
}

/// Asks for the orders of which something can be taken back.
#[derive(Debug)]
pub struct OpenOrdersQuery {
    paging: Paging,
    orders: Vec<BrokerOpenOrder>,
}

#[verifier::ext_equal]
pub struct OpenOrdersView {
    pub paging: PagingView,
    pub orders: Seq<OpenOrderView>,
}

impl View for OpenOrdersQuery {
    type V = OpenOrdersView;

    closed spec fn view(&self) -> OpenOrdersView {
        OpenOrdersView { paging: self.paging@, orders: rows(self.orders@) }
    }
}

/// Begins to ask for the orders of which something can be taken back.
pub fn open_orders() -> (query: OpenOrdersQuery)
    ensures
        query@ == (OpenOrdersView { paging: PagingView::start(), orders: Seq::empty() }),
{
    let orders: Vec<BrokerOpenOrder> = Vec::new();
    assert(rows(orders@) =~= Seq::empty());
    OpenOrdersQuery { paging: Paging::new(), orders }
}

impl OpenOrdersQuery {
    /// What to ask next.
    pub fn params(&self, cano: &str, prdt: &str) -> (params: Vec<Param>)
        ensures
            param_views(params@) == seq![
                ("CANO"@, cano@),
                ("ACNT_PRDT_CD"@, prdt@),
                ("CTX_AREA_FK100"@, self@.paging.fk),
                ("CTX_AREA_NK100"@, self@.paging.nk),
                ("INQR_DVSN_1"@, "0"@),
                ("INQR_DVSN_2"@, "0"@),
            ],
    {
        let mut params: Vec<Param> = Vec::new();
        params.push(param("CANO", cano));
        params.push(param("ACNT_PRDT_CD", prdt));
        params.push(param("CTX_AREA_FK100", self.paging.fk.as_str()));
        params.push(param("CTX_AREA_NK100", self.paging.nk.as_str()));
        params.push(param("INQR_DVSN_1", "0"));
        params.push(param("INQR_DVSN_2", "0"));
        assert(param_views(params@) =~= seq![
            ("CANO"@, cano@),
            ("ACNT_PRDT_CD"@, prdt@),
            ("CTX_AREA_FK100"@, self@.paging.fk),
            ("CTX_AREA_NK100"@, self@.paging.nk),
            ("INQR_DVSN_1"@, "0"@),
            ("INQR_DVSN_2"@, "0"@),
        ]);
        params
    }

    /// The header to ask with.
    pub fn tr_cont(&self) -> (header: Option<&'static str>)
        ensures
            match header {
                Some(text) => self@.paging.header() == Some(text@),
                None => self@.paging.header() is None,
            },
    {
        self.paging.header()
    }

    /// Whether nothing is left to ask.
    pub fn finished(&self) -> (yes: bool)
        ensures
            yes == self@.paging.done,
    {
        self.paging.done
    }

    /// The orders.
    pub fn into_orders(self) -> (orders: Vec<BrokerOpenOrder>)
        ensures
            rows(orders@) == self@.orders,
    {
        self.orders
    }

    /// Takes in a page that came on a day.
    pub fn accept(self, page: &RestPage, date: &str) -> (query: AppResult<OpenOrdersQuery>)
        ensures
            ({
                let told = gathered(
                    listed_rows(page.body@, "output"@),
                    self@.orders,
                    row_open_order(date@),
                );
                match query {
                    Ok(query) => {
                        &&& page.body@.text_field("rt_cd"@) == Some("0"@)
                        &&& told matches Ok(orders) && query@ == (OpenOrdersView {
                            paging: self@.paging.turned(*page),
                            orders,
                        })
                    },
                    Err(error) => if page.body@.text_field("rt_cd"@) != Some("0"@) {
                        checked(page.body@, Err(error))
                    } else {
                        told matches Err(text) && is_parse(error, text)
                    },
                }
            }),
    {
        if let Err(error) = KisRest::check_rt(&page.body) {
            return Err(error);
        }
        let ghost start = rows(self.orders@);
        let OpenOrdersQuery { paging, orders } = self;
        let mut orders = orders;
        let ghost f = row_open_order(date@);
        if let Some(items) = page.body.get_array("output") {
            let mut i: usize = 0;
            assert(rows(items@).take(0) =~= Seq::empty());
            while i < items.len()
                invariant
                    i <= items@.len(),
                    rows(items@) == listed_rows(page.body@, "output"@),
                    page.body@.text_field("rt_cd"@) == Some("0"@),
                    start == self@.orders,
                    f == row_open_order(date@),
                    gathered(rows(items@).take(i as int), start, f) == Ok::<
                        Seq<OpenOrderView>,
                        Seq<char>,
                    >(rows(orders@)),
                decreases items@.len() - i,
            {
                assert(rows(items@).take(i + 1).drop_last() =~= rows(items@).take(i as int));
                assert(rows(items@)[i as int] == items@[i as int]@);
                let ghost before = rows(orders@);
                match read_open_order(&items[i], date) {
                    Err(error) => {
                        proof {
                            lemma_gathered_fault(rows(items@), start, f, i + 1);
                        }
                        return Err(error);
                    },
                    Ok(None) => {},
                    Ok(Some(order)) => {
                        orders.push(order);
                        assert(rows(orders@) =~= before.push(order@));
                    },
                }
                i += 1;
            }
            assert(rows(items@).take(i as int) =~= rows(items@));
        }
        Ok(OpenOrdersQuery { paging: paging.turn(page), orders })
    }
}

} // verus!
