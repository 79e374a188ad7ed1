//! What the broker's replies come to, field by field, and what is asked of it.

use vstd::prelude::*;

use crate::clock::on_calendar;
use crate::json::{lemma_member_at, members_of, JsonView};
use crate::kis::account::{holding_of, orderable};
use crate::kis::auth::{credentials_body, fingerprint, lasts, value_token, ManagerView, TokenView};
use crate::kis::calendar::{byte_len, day_of};
use crate::kis::inquiry::{
    cancelled, daily_query, filled_time, gathered, is_last, open_order_row, row_fill,
    row_status_at, side_of, time_of, PagingView,
};
use crate::kis::numbers::{padded, plain};
use crate::kis::order::{cancellation_body, message_code, order_body, order_transaction, output_text};
use crate::kis::quote::{
    bar_of, hms, oldest_hour, past_stage, second_before, session, today_stage, top_of, weekend,
    ScanView, StageView,
};
use crate::kis::rest::{
    backoff, lowered, rate_limited, token_expired, GetRetry, GetStep, LimiterView, PostRetry,
    RestPage,
};
use crate::kis::subscriptions;
use crate::text::{blank, contains, digits, precedes, trimmed};
use crate::types::{Nanos, Side};

verus! {

/// Whether a member says a whole number, as text.
pub open spec fn tells(row: JsonView, name: Seq<char>, n: u64) -> bool {
    row.text_field(name) matches Some(text) && plain(trimmed(text)) == Some(n * 1_000_000_000)
}

/// Whether a member says a number of ten-thousandths, as text.
pub open spec fn tells_fine(row: JsonView, name: Seq<char>, n: u64) -> bool {
    row.text_field(name) matches Some(text) && plain(trimmed(text)) == Some(n * 100_000)
}

/// Whether a member says a text, with white space around it at most.
pub open spec fn names(row: JsonView, name: Seq<char>, told: Seq<char>) -> bool {
    row.text_field(name) matches Some(text) && trimmed(text) == told
}

/// The side is a sale for `01` and a purchase for `02`, and nothing else is one.
pub proof fn side_is_told_by_its_code(row: JsonView)
    ensures
        row.text_field("sll_buy_dvsn_cd"@) == Some("01"@) ==> side_of(row) == Some(Side::Sell),
        row.text_field("sll_buy_dvsn_cd"@) == Some("02"@) ==> side_of(row) == Some(Side::Buy),
        row.text_field("sll_buy_dvsn_cd"@) != Some("01"@) && row.text_field("sll_buy_dvsn_cd"@)
            != Some("02"@) ==> side_of(row) is None,
{
    reveal_strlit("01");
    reveal_strlit("02");
    assert("01"@[1] != "02"@[1]);
    assert("01"@.len() == 2 && "02"@.len() == 2);
}

/// The status of an order is read from the row of its number and day, each amount under its own name;
/// a row of another order or day says nothing of it, and one that cannot be read is a fault.
pub proof fn status_is_read_by_name(
    row: JsonView,
    date: Seq<char>,
    order_no: Seq<char>,
    at: i64,
    n: u64,
    text: Seq<char>,
)
    ensures
        ({
            let told = row_status_at(row, date, order_no, Some(at));
            &&& names(row, "odno"@, text) && text != order_no ==> (told matches Ok(None))
            &&& names(row, "odno"@, order_no) && names(row, "ord_dt"@, text) && text.len() > 0
                && text != date ==> (told matches Ok(None))
            &&& names(row, "odno"@, order_no) && (names(row, "ord_dt"@, date) || row.text_field(
                "ord_dt"@,
            ) == Some(Seq::<char>::empty())) ==> {
                &&& row_status_at(row, date, order_no, None) is Err
                &&& side_of(row) is None ==> told is Err
                &&& side_of(row) matches Some(side) ==> (told matches Ok(Some(status)) && {
                    &&& status.trading_date == date && status.order_no == order_no
                    &&& status.side == side && status.ordered_at == at
                    &&& tells(row, "ord_qty"@, n) ==> status.ordered_qty == n
                    &&& tells(row, "tot_ccld_qty"@, n) ==> status.filled_qty == n
                    &&& tells(row, "cnc_cfrm_qty"@, n) ==> status.cancelled_qty == n
                    &&& tells(row, "rmn_qty"@, n) ==> status.remaining_qty == n
                    &&& tells(row, "rjct_qty"@, n) ==> status.rejected_qty == n
                    &&& tells_fine(row, "avg_prvs"@, n) ==> status.avg_fill_price == n
                    &&& names(row, "pdno"@, text) ==> status.code == text
                    &&& names(row, "orgn_odno"@, text) ==> status.original_order_no == text
                    &&& names(row, "ord_gno_brno"@, text) ==> status.org_no == text
                })
            }
        }),
{
    if row.text_field("ord_dt"@) == Some(Seq::<char>::empty()) {
        crate::text::trimming_cuts_white_ends(Seq::empty());
    }
}

/// Shares that were taken back are read under the name that the broker gives, and under the misspelt
/// one only where that is missing.
pub proof fn cancelled_shares_have_two_names(row: JsonView, n: u64)
    ensures
        tells(row, "cnc_cfrm_qty"@, n) ==> cancelled(row) == n,
        row.field("cnc_cfrm_qty"@) is None && tells(row, "cncl_cfrm_qty"@, n) ==> cancelled(row)
            == n,
{
}

/// A fill of a day is read from a row with filled shares, each part under its own name; a row without
/// any tells of none, and one without a time or a side is a fault. The time of the notice comes
/// before that of the order.
pub proof fn daily_fill_is_read_by_name(
    row: JsonView,
    date: Seq<char>,
    n: u64,
    at: i64,
    text: Seq<char>,
)
    ensures
        ({
            let told = row_fill(date)(row);
            &&& tells(row, "tot_ccld_qty"@, 0) ==> (told matches Ok(None))
            &&& row.field("tot_ccld_qty"@) is None ==> (told matches Ok(None))
            &&& tells(row, "tot_ccld_qty"@, n) && n > 0 && filled_time(row, date) <= 0 ==> told is Err
            &&& tells(row, "tot_ccld_qty"@, n) && n > 0 && side_of(row) is None ==> told is Err
            &&& tells(row, "tot_ccld_qty"@, n) && n > 0 && filled_time(row, date) > 0 && side_of(
                row,
            ) is Some ==> (told matches Ok(Some(fill)) && {
                &&& fill.qty == n
                &&& Some(fill.side) == side_of(row)
                &&& fill.filled_at == filled_time(row, date)
                &&& row.text_field("odno"@) == Some(text) ==> fill.order_no == text
                &&& row.text_field("pdno"@) == Some(text) ==> fill.code == text
                &&& row.text_field("orgn_odno"@) == Some(text) ==> fill.original_order_no == text
                &&& row.text_field("ord_gno_brno"@) == Some(text) ==> fill.org_no == text
            })
        }),
        tells(row, "tot_ccld_qty"@, 1) && filled_time(row, date) > 0 && side_of(row) is Some
            && tells_fine(row, "avg_prvs"@, n) ==> (row_fill(date)(row) matches Ok(Some(fill))
            && fill.price == n),
        time_of(row, "infm_tmd"@, date) == Some(at) ==> filled_time(row, date) == at,
        time_of(row, "infm_tmd"@, date) is None && time_of(row, "ord_tmd"@, date) == Some(at)
            ==> filled_time(row, date) == at,
{
}

/// An order that is open is read where something of it can still be taken back, each part under its
/// own name.
pub proof fn open_order_is_read_by_name(
    row: JsonView,
    date: Seq<char>,
    at: i64,
    left: u64,
    n: u64,
    text: Seq<char>,
)
    ensures
        ({
            let told = open_order_row(row, date, Some(at));
            &&& tells(row, "psbl_qty"@, 0) ==> (told matches Ok(None))
            &&& tells(row, "psbl_qty"@, left) && left > 0 ==> {
                &&& side_of(row) is None ==> told is Err
                &&& open_order_row(row, date, None) is Err
                &&& side_of(row) matches Some(side) ==> (told matches Ok(Some(order)) && {
                    &&& order.cancelable_qty == left
                    &&& order.side == side && order.ordered_at == at
                    &&& tells(row, "ord_qty"@, n) ==> order.ordered_qty == n
                    &&& tells(row, "tot_ccld_qty"@, n) ==> order.filled_qty == n
                    &&& tells_fine(row, "ord_unpr"@, n) ==> order.price == n
                    &&& row.text_field("odno"@) == Some(text) ==> order.order_no == text
                    &&& row.text_field("pdno"@) == Some(text) ==> order.code == text
                    &&& row.text_field("orgn_odno"@) == Some(text) ==> order.original_order_no
                        == text
                    &&& row.text_field("ord_gno_brno"@) == Some(text) ==> order.org_no == text
                })
            }
        }),
{
}

/// What rows give is gathered in their order behind what was there, and the first fault among them is
/// the fault of all.
pub proof fn rows_are_gathered_in_order<V>(
    a: Seq<JsonView>,
    b: Seq<JsonView>,
    before: Seq<V>,
    f: spec_fn(JsonView) -> Result<Option<V>, Seq<char>>,
    row: JsonView,
)
    ensures
        gathered(a, before, f) matches Ok(found) ==> gathered(a + b, before, f) == gathered(
            b,
            found,
            f,
        ),
        gathered(a, before, f) is Err ==> gathered(a + b, before, f) == gathered(a, before, f),
        gathered(Seq::empty(), before, f) == Ok::<Seq<V>, Seq<char>>(before),
        f(row) matches Ok(Some(v)) ==> gathered(seq![row], before, f) == Ok::<Seq<V>, Seq<char>>(
            before.push(v),
        ),
        f(row) matches Ok(None) ==> gathered(seq![row], before, f) == Ok::<Seq<V>, Seq<char>>(
            before,
        ),
        f(row) is Err ==> gathered(seq![row], before, f) is Err,
    decreases b.len(),
{
    assert(seq![row].drop_last() =~= Seq::empty());
    if b.len() == 0 {
        assert(a + b =~= a);
    } else {
        rows_are_gathered_in_order(a, b.drop_last(), before, f, row);
        assert((a + b).drop_last() =~= a + b.drop_last());
    }
}

/// A page is the last where its header says so or it names no page to follow; after it the keys are
/// those that it names, and twenty pages are the most.
pub proof fn pages_follow_their_keys(paging: PagingView, page: RestPage, fk: Seq<char>, nk: Seq<char>)
    requires
        page.body@.text_field("ctx_area_fk100"@) == Some(fk),
        page.body@.text_field("ctx_area_nk100"@) == Some(nk),
        paging.pages < 20,
    ensures
        paging.turned(page).fk == fk,
        paging.turned(page).nk == nk,
        paging.turned(page).pages == paging.pages + 1,
        paging.turned(page).done <==> is_last(page) || paging.pages == 19,
        is_last(page) <==> page.tr_cont@.len() == 0 || page.tr_cont@ == "D"@ || (fk.len() == 0
            && nk.len() == 0),
        PagingView::start().header() is None,
        paging.turned(page).header() == Some("N"@),
{
}

/// A day's orders are asked for on that day alone, of the account, by the order's number and from
/// where the last page ended.
pub proof fn day_is_asked_for_by_name(
    cano: Seq<char>,
    prdt: Seq<char>,
    date: Seq<char>,
    filled: Seq<char>,
    order_no: Seq<char>,
    paging: PagingView,
)
    ensures
        ({
            let query = daily_query(cano, prdt, date, filled, order_no, paging);
            &&& query.contains(("CANO"@, cano)) && query.contains(("ACNT_PRDT_CD"@, prdt))
            &&& query.contains(("INQR_STRT_DT"@, date)) && query.contains(("INQR_END_DT"@, date))
            &&& query.contains(("CCLD_DVSN"@, filled)) && query.contains(("ODNO"@, order_no))
            &&& query.contains(("CTX_AREA_FK100"@, paging.fk)) && query.contains(
                ("CTX_AREA_NK100"@, paging.nk),
            )
        }),
{
    let query = daily_query(cano, prdt, date, filled, order_no, paging);
    assert(query[0] == ("CANO"@, cano) && query[1] == ("ACNT_PRDT_CD"@, prdt));
    assert(query[2] == ("INQR_STRT_DT"@, date) && query[3] == ("INQR_END_DT"@, date));
    assert(query[7] == ("CCLD_DVSN"@, filled) && query[9] == ("ODNO"@, order_no));
    assert(query[13] == ("CTX_AREA_FK100"@, paging.fk) && query[14] == (
        "CTX_AREA_NK100"@,
        paging.nk,
    ));
}

/// A holding is read from a row with shares and a code, each part under its own name.
pub proof fn holding_is_read_by_name(row: JsonView, code: Seq<char>, qty: u64, n: u64)
    ensures
        ({
            let told = holding_of()(row);
            &&& tells(row, "hldg_qty"@, 0) || row.text_field("pdno"@) is None ==> told is None
            &&& tells(row, "hldg_qty"@, qty) && qty > 0 && row.text_field("pdno"@) == Some(code)
                ==> (told matches Some(holding) && {
                &&& holding.code == code
                &&& holding.qty == qty
                &&& tells_fine(row, "pchs_avg_pric"@, n) ==> holding.avg_price == n
                &&& tells_fine(row, "evlu_pfls_amt"@, n) ==> holding.eval_pnl == n
                &&& row.text_field("evlu_pfls_rt"@) matches Some(text) ==> (plain(trimmed(text))
                    == Some(-(n as int)) && n <= i64::MAX ==> holding.pnl_rate == -(n as int))
            })
        }),
{
}

/// What can be bought for is the amount without claims where the reply tells it, and the cash where it
/// does not.
pub proof fn orderable_cash_is_without_claims(v: JsonView, output: JsonView, n: u64)
    requires
        v.field("output"@) == Some(output),
    ensures
        output.text_field("nrcvb_buy_amt"@) matches Some(text) ==> (!blank(text) && tells(
            output,
            "nrcvb_buy_amt"@,
            n,
        ) ==> orderable(v) == n),
        (output.text_field("nrcvb_buy_amt"@) matches Some(text) ==> blank(text)) && tells(
            output,
            "ord_psbl_cash"@,
            n,
        ) ==> orderable(v) == n,
{
}

/// An order names its account, its code, its kind, its shares, its price and its exchange.
pub proof fn order_names_what_it_is_for(
    cano: Seq<char>,
    prdt: Seq<char>,
    code: Seq<char>,
    qty: u64,
    division: Seq<char>,
    price: u64,
    exchange: Seq<char>,
)
    ensures
        ({
            let body = order_body(cano, prdt, code, qty, division, price, exchange);
            &&& body.text_field("CANO"@) == Some(cano)
            &&& body.text_field("ACNT_PRDT_CD"@) == Some(prdt)
            &&& body.text_field("PDNO"@) == Some(code)
            &&& body.text_field("ORD_DVSN"@) == Some(division)
            &&& body.text_field("ORD_QTY"@) == Some(digits(qty as nat))
            &&& body.text_field("ORD_UNPR"@) == Some(digits(price as nat))
            &&& body.text_field("EXCG_ID_DVSN_CD"@) == Some(exchange)
        }),
        order_transaction(Side::Buy) == "TTTC0012U"@,
        order_transaction(Side::Sell) == "TTTC0011U"@,
{
    let body = order_body(cano, prdt, code, qty, division, price, exchange);
    let m = members_of(body);
    reveal_strlit("CANO");
    reveal_strlit("ACNT_PRDT_CD");
    reveal_strlit("PDNO");
    reveal_strlit("ORD_DVSN");
    reveal_strlit("ORD_QTY");
    reveal_strlit("ORD_UNPR");
    reveal_strlit("EXCG_ID_DVSN_CD");
    assert("CANO"@.len() == 4 && "ACNT_PRDT_CD"@.len() == 12 && "PDNO"@.len() == 4
        && "ORD_DVSN"@.len() == 8 && "ORD_QTY"@.len() == 7 && "ORD_UNPR"@.len() == 8
        && "EXCG_ID_DVSN_CD"@.len() == 15);
    assert("CANO"@[0] == 'C' && "PDNO"@[0] == 'P' && "ORD_DVSN"@[4] == 'D' && "ORD_UNPR"@[4] == 'U');
    assert(m[0].0 == "CANO"@ && m[1].0 == "ACNT_PRDT_CD"@ && m[2].0 == "PDNO"@ && m[3].0
        == "ORD_DVSN"@ && m[4].0 == "ORD_QTY"@ && m[5].0 == "ORD_UNPR"@ && m[6].0
        == "EXCG_ID_DVSN_CD"@);
    lemma_member_at(body, 0);
    lemma_member_at(body, 1);
    lemma_member_at(body, 2);
    lemma_member_at(body, 3);
    lemma_member_at(body, 4);
    lemma_member_at(body, 5);
    lemma_member_at(body, 6);
}

/// A cancellation names the order by its number and its office, and takes back all of it.
pub proof fn cancellation_names_the_order(
    cano: Seq<char>,
    prdt: Seq<char>,
    order_no: Seq<char>,
    org_no: Seq<char>,
    exchange: Seq<char>,
)
    ensures
        ({
            let body = cancellation_body(cano, prdt, order_no, org_no, exchange);
            &&& body.text_field("CANO"@) == Some(cano)
            &&& body.text_field("ACNT_PRDT_CD"@) == Some(prdt)
            &&& body.text_field("KRX_FWDG_ORD_ORGNO"@) == Some(org_no)
            &&& body.text_field("ORGN_ODNO"@) == Some(order_no)
            &&& body.text_field("RVSE_CNCL_DVSN_CD"@) == Some("02"@)
            &&& body.text_field("QTY_ALL_ORD_YN"@) == Some("Y"@)
            &&& body.text_field("EXCG_ID_DVSN_CD"@) == Some(exchange)
        }),
{
    let body = cancellation_body(cano, prdt, order_no, org_no, exchange);
    let m = members_of(body);
    reveal_strlit("CANO");
    reveal_strlit("ACNT_PRDT_CD");
    reveal_strlit("KRX_FWDG_ORD_ORGNO");
    reveal_strlit("ORGN_ODNO");
    reveal_strlit("ORD_DVSN");
    reveal_strlit("RVSE_CNCL_DVSN_CD");
    reveal_strlit("ORD_QTY");
    reveal_strlit("ORD_UNPR");
    reveal_strlit("QTY_ALL_ORD_YN");
    reveal_strlit("EXCG_ID_DVSN_CD");
    assert("CANO"@.len() == 4 && "ACNT_PRDT_CD"@.len() == 12 && "KRX_FWDG_ORD_ORGNO"@.len() == 18
        && "ORGN_ODNO"@.len() == 9 && "ORD_DVSN"@.len() == 8 && "RVSE_CNCL_DVSN_CD"@.len() == 17
        && "ORD_QTY"@.len() == 7 && "ORD_UNPR"@.len() == 8 && "QTY_ALL_ORD_YN"@.len() == 14
        && "EXCG_ID_DVSN_CD"@.len() == 15);
    assert(m[0].0 == "CANO"@ && m[1].0 == "ACNT_PRDT_CD"@ && m[2].0 == "KRX_FWDG_ORD_ORGNO"@
        && m[3].0 == "ORGN_ODNO"@ && m[4].0 == "ORD_DVSN"@ && m[5].0 == "RVSE_CNCL_DVSN_CD"@
        && m[6].0 == "ORD_QTY"@ && m[7].0 == "ORD_UNPR"@ && m[8].0 == "QTY_ALL_ORD_YN"@ && m[9].0
        == "EXCG_ID_DVSN_CD"@);
    lemma_member_at(body, 0);
    lemma_member_at(body, 1);
    lemma_member_at(body, 2);
    lemma_member_at(body, 3);
    lemma_member_at(body, 5);
    lemma_member_at(body, 8);
    lemma_member_at(body, 9);
}

/// A reply names the order under `output`, and its message code where that is not blank.
pub proof fn reply_is_read_by_name(v: JsonView, output: JsonView, name: Seq<char>, text: Seq<char>)
    requires
        v.field("output"@) == Some(output),
    ensures
        names(output, name, text) ==> output_text(v, name) == text,
        output.text_field(name) is None ==> output_text(v, name).len() == 0,
        names(v, "msg_cd"@, text) && !blank(text) ==> message_code(v) == Some(text),
        names(v, "msg_cd"@, text) && blank(text) ==> message_code(v) is None,
        v.text_field("msg_cd"@) is None ==> message_code(v) is None,
{
}

/// The top of the book and a bar are read from a reply under their own names.
pub proof fn book_and_bars_are_read_by_name(
    v: JsonView,
    output: JsonView,
    row: JsonView,
    at: i64,
    n: u64,
)
    requires
        v.field("output1"@) == Some(output),
    ensures
        tells(output, "askp1"@, n) ==> top_of(v).ask1 == n,
        tells(output, "bidp1"@, n) ==> top_of(v).bid1 == n,
        tells(output, "askp_rsqn1"@, n) ==> top_of(v).ask1_qty == n,
        tells(output, "bidp_rsqn1"@, n) ==> top_of(v).bid1_qty == n,
        bar_of(row, at).time == at,
        tells(row, "stck_oprc"@, n) ==> bar_of(row, at).open == n,
        tells(row, "stck_hgpr"@, n) ==> bar_of(row, at).high == n,
        tells(row, "stck_lwpr"@, n) ==> bar_of(row, at).low == n,
        tells(row, "stck_prpr"@, n) ==> bar_of(row, at).close == n,
        tells(row, "cntg_vol"@, n) ==> bar_of(row, at).volume == n,
{
}

/// Both venues together trade from eight in the morning to eight in the evening, and the exchange from
/// nine to half past three.
pub proof fn sessions_have_their_hours()
    ensures
        session(true).0 == 8 * 3_600 && session(true).1 == 20 * 3_600,
        session(false).0 == 9 * 3_600 && session(false).1 == 15 * 3_600 + 30 * 60,
{
}

/// A time of the day is written as two digits each of its hour, minute and second.
pub proof fn time_is_written_in_six_digits(hour: nat, minute: nat, second: nat)
    requires
        hour < 24,
        minute < 60,
        second < 60,
    ensures
        hms(hour * 3_600 + minute * 60 + second) == padded(hour, 2) + padded(minute, 2) + padded(
            second,
            2,
        ),
        hms(hour * 3_600 + minute * 60 + second).len() == 6,
{
    let at = hour * 3_600 + minute * 60 + second;
    assert(at / 3_600 == hour);
    assert(at / 60 % 60 == minute);
    assert(at % 60 == second);
    reveal_with_fuel(padded, 3);
}

/// The minute before a time within the session is sixty seconds earlier; at its opening there is none.
pub proof fn minute_before_is_sixty_seconds_earlier(second: u32, session_open: u32)
    requires
        60 <= session_open < 86_400,
        second < 86_400,
    ensures
        second <= session_open ==> second_before(second, 0, session_open) is None,
        second > session_open ==> second_before(second, 0, session_open) == Some(
            hms((second - 60) as nat),
        ),
{
}

/// The oldest time of a page is one that a row tells, and no row tells an earlier one.
pub proof fn oldest_hour_is_the_least(told: Seq<JsonView>, i: int)
    requires
        0 <= i < told.len(),
    ensures
        told[i].text_field("stck_cntg_hour"@) matches Some(hour) ==> (oldest_hour(told) matches Some(
            oldest,
        ) && !precedes(hour, oldest)),
        oldest_hour(told) matches Some(oldest) ==> exists|k: int|
            0 <= k < told.len() && (#[trigger] told[k]).text_field("stck_cntg_hour"@) == Some(
                oldest,
            ),
    decreases told.len(),
{
    let front = told.drop_last();
    let last = told.last().text_field("stck_cntg_hour"@);
    if let Some(hour) = last {
        crate::text::lemma_precedes_total(hour, hour);
    }
    if front.len() > 0 {
        let j = if i < front.len() {
            i
        } else {
            0
        };
        oldest_hour_is_the_least(front, j);
        if i < front.len() {
            assert(front[i] == told[i]);
        }
        if let Some(oldest) = oldest_hour(front) {
            let k = choose|k: int|
                0 <= k < front.len() && (#[trigger] front[k]).text_field("stck_cntg_hour"@) == Some(
                    oldest,
                );
            assert(told[k] == front[k]);
            if let Some(hour) = last {
                crate::text::lemma_precedes_total(hour, oldest);
                if i < front.len() {
                    if let Some(told_hour) = told[i].text_field("stck_cntg_hour"@) {
                        crate::text::lemma_precedes_total(told_hour, hour);
                        if precedes(hour, oldest) && precedes(told_hour, hour) {
                            crate::text::lemma_precedes_transitive(told_hour, hour, oldest);
                        }
                    }
                }
            }
        }
    } else {
        assert(oldest_hour(front) is None);
    }
    if let Some(oldest) = oldest_hour(told) {
        if last == Some(oldest) {
            assert(told[told.len() - 1].text_field("stck_cntg_hour"@) == Some(oldest));
        }
    }
}

/// The scan of earlier days goes back to a working day before the one it comes from, from the close of
/// its session on, until there are bars enough or fifteen days were looked at.
pub proof fn scan_goes_back_to_a_working_day(bars: nat, unified: bool, day: int, scanned: int)
    requires
        on_calendar(day),
        0 <= scanned <= 15,
    ensures
        bars >= 1_920 || scanned == 15 ==> past_stage(bars, unified, day, scanned) is Done,
        past_stage(bars, unified, day, scanned) matches StageView::Past { day: d, scanned: s, cursor }
            ==> {
            &&& d < day
            &&& !weekend(d as int)
            &&& s > scanned && s <= 15
            &&& d == day - 86_400 * (s - scanned)
            &&& cursor == hms(
                if unified {
                    72_000
                } else {
                    55_800
                },
            )
        },
        bars < 1_920 && scanned < 15 && on_calendar(day - 86_400) && !weekend(day - 86_400)
            ==> past_stage(bars, unified, day, scanned) is Past,
    decreases 15 - scanned,
{
    if bars < 1_920 && scanned < 15 && on_calendar(day - 86_400) && weekend(day - 86_400) {
        scan_goes_back_to_a_working_day(bars, unified, day - 86_400, scanned + 1);
    }
}

/// Today is scanned from the present time on, or from the close where that is over; before the opening
/// and at a weekend earlier days are.
pub proof fn today_is_scanned_while_it_trades(unified: bool, now: int)
    requires
        on_calendar(now),
    ensures
        ({
            let second = now % 86_400;
            let open = if unified {
                28_800int
            } else {
                32_400int
            };
            let close = if unified {
                72_000int
            } else {
                55_800int
            };
            &&& second < open || weekend(now - second) ==> !(today_stage(0, unified, now) is Today)
            &&& second >= open && !weekend(now - second) ==> today_stage(0, unified, now) == (
            StageView::Today {
                cursor: hms(
                    (if second <= close {
                        second
                    } else {
                        close
                    }) as nat,
                ),
            })
        }),
{
    if now % 86_400 < session(unified).0 || weekend(now - now % 86_400) {
        lemma_never_today(0, unified, now - now % 86_400, 0);
    }
}

proof fn lemma_never_today(bars: nat, unified: bool, day: int, scanned: int)
    ensures
        !(past_stage(bars, unified, day, scanned) is Today),
    decreases 15 - scanned,
{
    if scanned < 15 {
        lemma_never_today(bars, unified, day - 86_400, scanned + 1);
    }
}

/// The first day of the count is a Thursday, so the second and third after it are a weekend, and every
/// seventh day is as the first.
pub proof fn weekends_come_every_seven_days(day: int)
    ensures
        weekend(day) <==> weekend(day + 7 * 86_400),
        !weekend(0) && !weekend(86_400) && weekend(2int * 86_400) && weekend(3int * 86_400) && !weekend(
            4int * 86_400,
        ) && !weekend(5int * 86_400) && !weekend(6int * 86_400),
{
    assert((day + 7 * 86_400) / 86_400 == day / 86_400 + 7);
}

/// Where both venues together fail, the exchange alone is asked: today anew, and an earlier day from
/// the exchange's close on with what was gathered. Where it fails too the scan has failed.
pub proof fn exchange_is_asked_alone_once(scan: ScanView, now: int)
    ensures
        !scan.unified ==> scan.failed(now) is None,
        scan.unified && scan.stage is Today ==> (scan.failed(now) matches Some(after)
            && !after.unified && after.all.len() == 0 && after.code == scan.code),
        scan.unified ==> (scan.stage matches StageView::Past { day, scanned, cursor } ==> (
        scan.failed(now) matches Some(after) && !after.unified && after.all == scan.all && (
        after.stage matches StageView::Past { day: d, scanned: s, cursor: c } && d == day && s
            == scanned && c == hms(55_800)))),
{
}

/// The waits after rate limits double from half a second to four seconds.
pub proof fn waits_after_rate_limits_double(attempt: u32)
    ensures
        backoff(0) == 500_000_000,
        attempt < 3 ==> backoff((attempt + 1) as u32) == 2 * backoff(attempt),
        attempt >= 3 ==> backoff(attempt) == 4_000_000_000,
{
}

/// A query whose token is over gets a new one once; one that was too many waits, four times at most;
/// any other error and any answer is returned. An order is never sent again but for its token.
pub proof fn retries_have_their_reasons(get: GetRetry, post: PostRetry, text: Seq<char>)
    ensures
        get.step(None) is Return && post.step(None) is Return,
        token_expired(text) && !get.token_refresh_attempted ==> get.step(Some(text))
            is RefreshToken,
        rate_limited(text) && !token_expired(text) && get.rate_limit_attempt < 4 ==> get.step(
            Some(text),
        ) == GetStep::Defer(backoff(get.rate_limit_attempt)),
        rate_limited(text) && !token_expired(text) && get.rate_limit_attempt >= 4 ==> get.step(
            Some(text),
        ) is Return,
        !rate_limited(text) && !token_expired(text) ==> get.step(Some(text)) is Return && post.step(
            Some(text),
        ) is Return,
        token_expired(text) && !post.token_refresh_attempted ==> post.step(Some(text))
            is RefreshToken,
        rate_limited(text) && !token_expired(text) ==> post.step(Some(text)) is CoolDown,
        get.stepped(Some(text)).rate_limit_attempt >= get.rate_limit_attempt,
        get.step(Some(text)) is RefreshToken ==> get.stepped(Some(text)).token_refresh_attempted,
{
}

/// A message is of the rate limit, or of a token that is over, by the broker's code wherever it stands
/// in it; capitals make no difference for a token.
pub proof fn errors_are_known_by_their_code(before: Seq<char>, after: Seq<char>)
    ensures
        rate_limited(before + "EGW00201"@ + after),
        token_expired(before + "egw00123"@ + after),
        token_expired(before + "EGW00123"@ + after),
{
    let code = "EGW00201"@;
    let text = before + code + after;
    assert(text.subrange(before.len() as int, (before.len() + code.len()) as int) =~= code);
    assert(crate::text::occurs_at(text, code, before.len() as int));
    let small = "egw00123"@;
    reveal_strlit("egw00123");
    reveal_strlit("EGW00123");
    let low = lowered(before + small + after);
    let high = lowered(before + "EGW00123"@ + after);
    assert(low.subrange(before.len() as int, (before.len() + small.len()) as int) =~= small);
    assert(high.subrange(before.len() as int, (before.len() + small.len()) as int) =~= small);
    assert(crate::text::occurs_at(low, small, before.len() as int));
    assert(crate::text::occurs_at(high, small, before.len() as int));
    assert(contains(low, small));
    assert(contains(high, small));
}

/// A day of the calendar is open for `Y` and closed for `N`, and is none where it says neither or its
/// date is not of eight characters.
pub proof fn day_is_open_or_closed(row: JsonView, date: Seq<char>, text: Seq<char>)
    ensures
        names(row, "bass_dt"@, date) && byte_len(date) == 8 && names(row, "opnd_yn"@, "Y"@) ==> (
        day_of()(row) matches Some(day) && day.date == date && day.is_open),
        names(row, "bass_dt"@, date) && byte_len(date) == 8 && names(row, "opnd_yn"@, "N"@) ==> (
        day_of()(row) matches Some(day) && day.date == date && !day.is_open),
        names(row, "opnd_yn"@, text) && text != "Y"@ && text != "N"@ ==> day_of()(row) is None,
        names(row, "bass_dt"@, date) && byte_len(date) != 8 ==> day_of()(row) is None,
{
    reveal_strlit("Y");
    reveal_strlit("N");
    assert("Y"@[0] != "N"@[0]);
}

/// A token is used until five minutes before its end, for the gateway and the key it was issued for;
/// the one that is kept comes before that of the file.
pub proof fn token_is_used_until_shortly_before_its_end(
    manager: ManagerView,
    token: TokenView,
    now: i64,
    file: Option<TokenView>,
)
    ensures
        manager.still_valid(token, now) <==> now < token.expires_at - 300 && token.base
            == manager.base && token.app_key_fingerprint == fingerprint(manager.app_key),
        manager.cached == Some(token) && manager.still_valid(token, now) ==> manager.usable(
            now,
            file,
        ) == Some(token),
        manager.cached == Some(token) && !manager.still_valid(token, now) ==> manager.usable(
            now,
            file,
        ) is None,
        manager.cached is None && file == Some(token) ==> (manager.usable(now, file) is Some
            <==> manager.still_valid(token, now)),
        manager.cached is None && file is None ==> manager.usable(now, file) is None,
{
}

/// A token lasts as long as its reply says, a day where it does not, and is of the manager's gateway
/// and key.
pub proof fn token_lasts_as_its_reply_says(manager: ManagerView, now: i64, text: Seq<char>, span: i64)
    requires
        0 <= now <= 0xffff_ffff_ffff,
        0 <= span <= 0xffff_ffff_ffff,
    ensures
        manager.issued(now, text, span).expires_at == now + span,
        manager.issued(now, text, span).access_token == text,
        manager.issued(now, text, span).base == manager.base,
        manager.issued(now, text, span).app_key_fingerprint == fingerprint(manager.app_key),
        forall|reply: JsonView|
            reply.field("expires_in"@) is None ==> #[trigger] lasts(reply) == 86_400,
        forall|reply: JsonView|
            (reply.field("expires_in"@) matches Some(n) && n.signed() == Some(span))
                ==> #[trigger] lasts(reply) == span,
{
}

/// A token file is read under the names of its parts; without a gateway or a key those are empty.
pub proof fn token_file_is_read_by_name(value: JsonView, token: Seq<char>, expires: JsonView, at: i64)
    requires
        value is Object,
        value.text_field("access_token"@) == Some(token),
        value.field("expires_at"@) == Some(expires),
        expires.signed() == Some(at),
        value.field("base"@) is None,
        value.field("app_key_fingerprint"@) is None,
    ensures
        value_token(value) matches Some(read) && read.access_token == token && read.expires_at == at
            && read.base.len() == 0 && read.app_key_fingerprint.len() == 0,
{
}

/// Credentials name the key and the secret that are given.
pub proof fn credentials_name_key_and_secret(key: Seq<char>, name: Seq<char>, secret: Seq<char>)
    requires
        name != "grant_type"@,
        name != "appkey"@,
    ensures
        credentials_body(key, name, secret).text_field("appkey"@) == Some(key),
        credentials_body(key, name, secret).text_field(name) == Some(secret),
        credentials_body(key, name, secret).text_field("grant_type"@) == Some(
            "client_credentials"@,
        ),
{
    let body = credentials_body(key, name, secret);
    let m = members_of(body);
    reveal_strlit("grant_type");
    reveal_strlit("appkey");
    assert("grant_type"@.len() == 10 && "appkey"@.len() == 6);
    assert(m[0].0 == "grant_type"@ && m[1].0 == "appkey"@ && m[2].0 == name);
    lemma_member_at(body, 0);
    lemma_member_at(body, 1);
    lemma_member_at(body, 2);
}

/// Every code has its prices, in the order of the codes, and then every traded code its book.
pub proof fn codes_are_subscribed_in_order(all: Seq<Seq<char>>, traded: Seq<Seq<char>>, i: int)
    ensures
        subscriptions(all, traded).len() == all.len() + traded.len(),
        0 <= i < all.len() ==> subscriptions(all, traded)[i].1 == all[i],
        0 <= i < all.len() && traded.contains(all[i]) ==> subscriptions(all, traded)[i].0
            == "H0STCNT0"@,
        0 <= i < all.len() && !traded.contains(all[i]) ==> subscriptions(all, traded)[i].0
            == "H0UNCNT0"@,
        0 <= i < traded.len() ==> subscriptions(all, traded)[all.len() + i] == (
            "H0STASP0"@,
            traded[i],
        ),
{
}

/// A request that is due is let out and makes the next one wait for the gap; one that is not due
/// changes nothing, and being told to wait never shortens a wait.
pub proof fn due_requests_are_let_out(limiter: LimiterView, now: Nanos, span: Nanos)
    requires
        now + limiter.min_gap <= u128::MAX,
        now + span <= u128::MAX,
    ensures
        limiter.next_slot <= now && limiter.blocked_until <= now ==> limiter.asked(now).next_slot
            == now + limiter.min_gap && limiter.asked(now).blocked_until == limiter.blocked_until,
        limiter.next_slot > now || limiter.blocked_until > now ==> limiter.asked(now) == limiter,
        limiter.deferred(now, span).blocked_until >= limiter.blocked_until,
        limiter.deferred(now, span).blocked_until >= now + span,
        limiter.deferred(now, span).next_slot == limiter.next_slot,
        limiter.blocked_until <= now + span ==> limiter.deferred(now, span).blocked_until == now
            + span,
{
}

} // verus!
