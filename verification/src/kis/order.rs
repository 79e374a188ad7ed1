//! Orders and their replies.

use vstd::prelude::*;

use crate::broker::{AckView, OrderAck};
use crate::error::{is_kis, AppError, AppResult, OrderRejection};
use crate::json::{object, text_member, text_of, Json, JsonView, Member};
use crate::text::{blank, decimal, digits, is_blank, opt, trim, trimmed};
use crate::types::Side;

verus! {

pub const PATH_ORDER: &'static str = "/uapi/domestic-stock/v1/trading/order-cash";

pub const PATH_CANCEL: &'static str = "/uapi/domestic-stock/v1/trading/order-rvsecncl";

/// An order at a price or better.
pub const ORD_DVSN_LIMIT: &'static str = "00";

/// An order at any price.
pub const ORD_DVSN_MARKET: &'static str = "01";

/// An order at a price or better, of which nothing stays that is not filled at once.
pub const ORD_DVSN_IOC_LIMIT: &'static str = "11";

pub const CANCEL_TR: &'static str = "TTTC0013U";

/// The transaction that buys, and the one that sells.
pub open spec fn order_transaction(side: Side) -> Seq<char> {
    match side {
        Side::Buy => "TTTC0012U"@,
        Side::Sell => "TTTC0011U"@,
    }
}

/// The transaction that buys, and the one that sells.
pub fn order_tr(side: Side) -> (tr: &'static str)
    ensures
        tr@ == order_transaction(side),
{
    match side {
        Side::Buy => "TTTC0012U",
        Side::Sell => "TTTC0011U",
    }
}

/// The kind of a purchase at a limit.
pub fn buy_division(ioc: bool) -> (division: &'static str)
    ensures
        division@ == (if ioc {
            ORD_DVSN_IOC_LIMIT@
        } else {
            ORD_DVSN_LIMIT@
        }),
{
    if ioc {
        ORD_DVSN_IOC_LIMIT
    } else {
        ORD_DVSN_LIMIT
    }
}

/// The message code of a reply, where it has one.
pub open spec fn message_code(v: JsonView) -> Option<Seq<char>> {
    match v.text_field("msg_cd"@) {
        Some(text) => if blank(trimmed(text)) {
            None
        } else {
            Some(trimmed(text))
        },
        None => None,
    }
}

/// A reply turns an order down, with this rejection.
pub open spec fn refused(v: JsonView, error: AppError) -> bool {
    &&& v.text_field("rt_cd"@) != Some("0"@)
    &&& error matches AppError::Order(rejection) && {
        &&& opt(rejection.code_spec()) == message_code(v)
        &&& rejection.message_spec() == (match v.text_field("msg1"@) {
            Some(text) => trimmed(text),
            None => trimmed("알 수 없는 KIS 주문 거부"@),
        })
    }
}

/// Whether an order was taken in. A reply that says it was not settles that there is no order.
pub fn check_order_rt(v: &Json) -> (result: AppResult<()>)
    ensures
        match result {
            Ok(_) => v@.text_field("rt_cd"@) == Some("0"@),
            Err(error) => refused(v@, error),
        },
{
    if v.field_is("rt_cd", "0") {
        return Ok(());
    }
    let code = match v.get_str("msg_cd") {
        Some(text) => {
            let code = trim(text);
            if is_blank(code.as_str()) {
                None
            } else {
                Some(code)
            }
        },
        None => None,
    };
    let message = match v.get_str("msg1") {
        Some(text) => trim(text),
        None => trim("알 수 없는 KIS 주문 거부"),
    };
    Err(AppError::Order(OrderRejection::kis(code, message.as_str())))
}

/// The text of a member of the reply's output, without white space at its ends.
pub open spec fn output_text(v: JsonView, name: Seq<char>) -> Seq<char> {
    match v.nested("output"@, name) {
        Some(value) => match value.text() {
            Some(text) => trimmed(text),
            None => Seq::empty(),
        },
        None => Seq::empty(),
    }
}

fn read_output(v: &Json, name: &str) -> (text: String)
    ensures
        text@ == output_text(v@, name@),
{
    match v.get_nested("output", name) {
        Some(value) => match value.as_str() {
            Some(text) => trim(text),
            None => String::new(),
        },
        None => String::new(),
    }
}

/// The order of a reply. A reply without the order's number or its office leaves open whether the
/// order was taken in.
pub fn parse_order_ack(v: &Json, default_message: &str) -> (ack: AppResult<OrderAck>)
    ensures
        replied(v@, default_message@, ack),
{
    let order_no = read_output(v, "ODNO");
    let org_no = read_output(v, "KRX_FWDG_ORD_ORGNO");
    if order_no.as_str().unicode_len() == 0 || org_no.as_str().unicode_len() == 0 {
        return Err(
            AppError::Kis(
                "KIS 성공 응답에 주문번호 또는 주문조직번호가 없어 접수 여부가 불명확합니다".to_owned(),
            ),
        );
    }
    let message = match v.get_str("msg1") {
        Some(text) => trim(text),
        None => trim(default_message),
    };
    Ok(OrderAck { order_no, org_no, message })
}

/// An order as it is sent.
#[derive(Debug)]
pub struct OrderRequest {
    pub path: &'static str,
    pub tr_id: &'static str,
    pub body: Json,
}

/// The body of an order.
pub open spec fn order_body(
    cano: Seq<char>,
    prdt: Seq<char>,
    code: Seq<char>,
    qty: u64,
    division: Seq<char>,
    price: u64,
    exchange: Seq<char>,
) -> JsonView {
    JsonView::Object(
        seq![
            text_of("CANO"@, cano),
            text_of("ACNT_PRDT_CD"@, prdt),
            text_of("PDNO"@, code),
            text_of("ORD_DVSN"@, division),
            text_of("ORD_QTY"@, digits(qty as nat)),
            text_of("ORD_UNPR"@, digits(price as nat)),
            text_of("EXCG_ID_DVSN_CD"@, exchange),
        ],
    )
}

/// Orders shares with cash.
pub fn order_cash(
    cano: &str,
    prdt: &str,
    side: Side,
    code: &str,
    qty: u64,
    ord_dvsn: &str,
    price: u64,
    exchange: &str,
) -> (request: OrderRequest)
    ensures
        request.path@ == PATH_ORDER@,
        request.tr_id@ == order_transaction(side),
        request.body@ == order_body(cano@, prdt@, code@, qty, ord_dvsn@, price, exchange@),
{
    let mut m: Vec<Member> = Vec::new();
    m.push(text_member("CANO", cano));
    m.push(text_member("ACNT_PRDT_CD", prdt));
    m.push(text_member("PDNO", code));
    m.push(text_member("ORD_DVSN", ord_dvsn));
    m.push(text_member("ORD_QTY", decimal(qty).as_str()));
    m.push(text_member("ORD_UNPR", decimal(price).as_str()));
    m.push(text_member("EXCG_ID_DVSN_CD", exchange));
    let body = object(m);
    assert(body@->Object_0 =~= order_body(
        cano@,
        prdt@,
        code@,
        qty,
        ord_dvsn@,
        price,
        exchange@,
    )->Object_0);
    OrderRequest { path: PATH_ORDER, tr_id: order_tr(side), body }
}

/// The body of a cancellation: of all that is left of the order that its number and its office name.
pub open spec fn cancellation_body(
    cano: Seq<char>,
    prdt: Seq<char>,
    order_no: Seq<char>,
    org_no: Seq<char>,
    exchange: Seq<char>,
) -> JsonView {
    JsonView::Object(
        seq![
            text_of("CANO"@, cano),
            text_of("ACNT_PRDT_CD"@, prdt),
            text_of("KRX_FWDG_ORD_ORGNO"@, org_no),
            text_of("ORGN_ODNO"@, order_no),
            text_of("ORD_DVSN"@, ORD_DVSN_LIMIT@),
            text_of("RVSE_CNCL_DVSN_CD"@, "02"@),
            text_of("ORD_QTY"@, "0"@),
            text_of("ORD_UNPR"@, "0"@),
            text_of("QTY_ALL_ORD_YN"@, "Y"@),
            text_of("EXCG_ID_DVSN_CD"@, exchange),
        ],
    )
}

/// Takes an order back.
pub fn cancel_order(cano: &str, prdt: &str, order_no: &str, org_no: &str, exchange: &str) -> (request:
    OrderRequest)
    ensures
        request.path@ == PATH_CANCEL@,
        request.tr_id@ == CANCEL_TR@,
        request.body@ == cancellation_body(cano@, prdt@, order_no@, org_no@, exchange@),
{
    let mut m: Vec<Member> = Vec::new();
    m.push(text_member("CANO", cano));
    m.push(text_member("ACNT_PRDT_CD", prdt));
    m.push(text_member("KRX_FWDG_ORD_ORGNO", org_no));
    m.push(text_member("ORGN_ODNO", order_no));
    m.push(text_member("ORD_DVSN", ORD_DVSN_LIMIT));
    m.push(text_member("RVSE_CNCL_DVSN_CD", "02"));
    m.push(text_member("ORD_QTY", "0"));
    m.push(text_member("ORD_UNPR", "0"));
    m.push(text_member("QTY_ALL_ORD_YN", "Y"));
    m.push(text_member("EXCG_ID_DVSN_CD", exchange));
    let body = object(m);
    assert(body@->Object_0 =~= cancellation_body(
        cano@,
        prdt@,
        order_no@,
        org_no@,
        exchange@,
    )->Object_0);
    OrderRequest { path: PATH_CANCEL, tr_id: CANCEL_TR, body }
}

/// The reply to a purchase or a sale: the order, or why there is none or none is settled.
pub fn order_reply(v: &Json) -> (ack: AppResult<OrderAck>)
    ensures
        v@.text_field("rt_cd"@) != Some("0"@) ==> (ack matches Err(error) && refused(v@, error)),
        v@.text_field("rt_cd"@) == Some("0"@) ==> replied(v@, "주문 접수"@, ack),
{
    match check_order_rt(v) {
        Ok(_) => parse_order_ack(v, "주문 접수"),
        Err(error) => Err(error),
    }
}

/// The reply to a cancellation.
pub fn cancel_reply(v: &Json) -> (ack: AppResult<OrderAck>)
    ensures
        v@.text_field("rt_cd"@) != Some("0"@) ==> (ack matches Err(error) && refused(v@, error)),
        v@.text_field("rt_cd"@) == Some("0"@) ==> replied(v@, "취소 접수"@, ack),
{
    match check_order_rt(v) {
        Ok(_) => parse_order_ack(v, "취소 접수"),
        Err(error) => Err(error),
    }
}

/// What a reply of an order that was taken in comes to.
pub open spec fn replied(v: JsonView, default_message: Seq<char>, ack: AppResult<OrderAck>) -> bool {
    let order_no = output_text(v, "ODNO"@);
    let org_no = output_text(v, "KRX_FWDG_ORD_ORGNO"@);
    match ack {
        Ok(ack) => {
            &&& order_no.len() > 0 && org_no.len() > 0
            &&& ack@ == (AckView {
                order_no,
                org_no,
                message: trimmed(
                    match v.text_field("msg1"@) {
                        Some(text) => text,
                        None => default_message,
                    },
                ),
            })
        },
        Err(error) => {
            &&& order_no.len() == 0 || org_no.len() == 0
            &&& is_kis(
                error,
                "KIS 성공 응답에 주문번호 또는 주문조직번호가 없어 접수 여부가 불명확합니다"@,
            )
        },
    }
}

} // verus!
