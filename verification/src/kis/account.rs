//! What the account holds and what it can buy.

use vstd::prelude::*;

use crate::error::AppResult;
use crate::json::{Json, JsonView};
use crate::kis::numbers::{
    field_number, fine_of, num_billionths, num_u64, rate_of, signed_fine_of, to_fine, to_rate,
    to_signed_fine, whole_of,
};
use crate::kis::rest::{checked, param, param_views, KisRest, Param};
use crate::seqs::{filter_mapped, lemma_filter_mapped_step};
use crate::tables::rows;
use crate::text::{blank, decimal, digits, is_blank};
use crate::types::{HoldingView, Position};

verus! {

pub const PATH_BALANCE: &'static str = "/uapi/domestic-stock/v1/trading/inquire-balance";

pub const TR_BALANCE: &'static str = "TTTC8434R";

pub const PATH_PSBL: &'static str = "/uapi/domestic-stock/v1/trading/inquire-psbl-order";

pub const TR_PSBL: &'static str = "TTTC8908R";

/// What is asked for the holdings.
pub open spec fn balance_query(cano: Seq<char>, prdt: Seq<char>) -> Seq<(Seq<char>, Seq<char>)> {
    seq![
        ("CANO"@, cano),
        ("ACNT_PRDT_CD"@, prdt),
        ("AFHR_FLPR_YN"@, "N"@),
        ("OFL_YN"@, ""@),
        ("INQR_DVSN"@, "02"@),
        ("UNPR_DVSN"@, "01"@),
        ("FUND_STTL_ICLD_YN"@, "N"@),
        ("FNCG_AMT_AUTO_RDPT_YN"@, "N"@),
        ("PRCS_DVSN"@, "00"@),
        ("CTX_AREA_FK100"@, ""@),
        ("CTX_AREA_NK100"@, ""@),
    ]
}

/// Asks for the holdings.
pub fn balance_params(cano: &str, prdt: &str) -> (params: Vec<Param>)
    ensures
        param_views(params@) == balance_query(cano@, prdt@),
{
    let mut params: Vec<Param> = Vec::new();
    params.push(param("CANO", cano));
    params.push(param("ACNT_PRDT_CD", prdt));
    params.push(param("AFHR_FLPR_YN", "N"));
    params.push(param("OFL_YN", ""));
    params.push(param("INQR_DVSN", "02"));
    params.push(param("UNPR_DVSN", "01"));
    params.push(param("FUND_STTL_ICLD_YN", "N"));
    params.push(param("FNCG_AMT_AUTO_RDPT_YN", "N"));
    params.push(param("PRCS_DVSN", "00"));
    params.push(param("CTX_AREA_FK100", ""));
    params.push(param("CTX_AREA_NK100", ""));
    assert(param_views(params@) =~= balance_query(cano@, prdt@));
    params
}

/// The holding that a row tells of: none where there is no share or no code.
pub open spec fn holding_of() -> spec_fn(JsonView) -> Option<HoldingView> {
    |row: JsonView|
        {
            let qty = whole_of(field_number(row.field("hldg_qty"@)));
            match row.text_field("pdno"@) {
                Some(code) => if qty == 0 {
                    None
                } else {
                    Some(
                        HoldingView {
                            code,
                            qty,
                            avg_price: fine_of(field_number(row.field("pchs_avg_pric"@))),
                            eval_pnl: signed_fine_of(field_number(row.field("evlu_pfls_amt"@))),
                            pnl_rate: rate_of(field_number(row.field("evlu_pfls_rt"@))),
                        },
                    )
                },
                None => None,
            }
        }
}

fn read_holding(row: &Json) -> (position: Option<Position>)
    ensures
        match position {
            Some(p) => holding_of()(row@) == Some(p@),
            None => holding_of()(row@) is None,
        },
{
    let qty: u64 = num_u64(row.get("hldg_qty"));
    if qty == 0 {
        return None;
    }
    match row.get_str("pdno") {
        Some(code) => Some(
            Position {
                code: code.to_owned(),
                qty,
                avg_price: to_fine(num_billionths(row.get("pchs_avg_pric"))),
                eval_pnl: to_signed_fine(num_billionths(row.get("evlu_pfls_amt"))),
                pnl_rate: to_rate(num_billionths(row.get("evlu_pfls_rt"))),
            },
        ),
        None => None,
    }
}

/// The rows of a list, or none where there is no list.
pub open spec fn listed_rows(v: JsonView, name: Seq<char>) -> Seq<JsonView> {
    match v.list_field(name) {
        Some(items) => items,
        None => Seq::empty(),
    }
}

/// The holdings of a reply.
pub fn positions(v: &Json) -> (positions: AppResult<Vec<Position>>)
    ensures
        match positions {
            Ok(positions) => {
                &&& v@.text_field("rt_cd"@) == Some("0"@)
                &&& rows(positions@) == filter_mapped(listed_rows(v@, "output1"@), holding_of())
            },
            Err(error) => checked(v@, Err(error)),
        },
{
    if let Err(error) = KisRest::check_rt(v) {
        return Err(error);
    }
    let mut positions: Vec<Position> = Vec::new();
    assert(rows(positions@) =~= Seq::empty());
    if let Some(items) = v.get_array("output1") {
        let mut i: usize = 0;
        assert(rows(items@).take(0) =~= Seq::empty());
        while i < items.len()
            invariant
                i <= items@.len(),
                rows(positions@) == filter_mapped(rows(items@).take(i as int), holding_of()),
            decreases items@.len() - i,
        {
            let ghost before = rows(positions@);
            proof {
                lemma_filter_mapped_step(rows(items@), holding_of(), i as int);
                assert(rows(items@)[i as int] == items@[i as int]@);
            }
            if let Some(position) = read_holding(&items[i]) {
                positions.push(position);
                assert(rows(positions@) =~= before.push(position@));
            }
            i += 1;
        }
        assert(rows(items@).take(i as int) =~= rows(items@));
    }
    Ok(positions)
}

/// What is asked for what can be bought.
pub open spec fn orderable_query(
    cano: Seq<char>,
    prdt: Seq<char>,
    code: Seq<char>,
    price: u64,
    division: Seq<char>,
) -> Seq<(Seq<char>, Seq<char>)> {
    seq![
        ("CANO"@, cano),
        ("ACNT_PRDT_CD"@, prdt),
        ("PDNO"@, code),
        ("ORD_UNPR"@, digits(price as nat)),
        ("ORD_DVSN"@, division),
        ("CMA_EVLU_AMT_ICLD_YN"@, "N"@),
        ("OVRS_ICLD_YN"@, "N"@),
    ]
}

fn orderable_params(cano: &str, prdt: &str, code: &str, price: u64, division: &str) -> (params: Vec<
    Param,
>)
    ensures
        param_views(params@) == orderable_query(cano@, prdt@, code@, price, division@),
{
    let mut params: Vec<Param> = Vec::new();
    params.push(param("CANO", cano));
    params.push(param("ACNT_PRDT_CD", prdt));
    params.push(param("PDNO", code));
    params.push(("ORD_UNPR", decimal(price)));
    params.push(param("ORD_DVSN", division));
    params.push(param("CMA_EVLU_AMT_ICLD_YN", "N"));
    params.push(param("OVRS_ICLD_YN", "N"));
    assert(param_views(params@) =~= orderable_query(cano@, prdt@, code@, price, division@));
    params
}

/// Asks for the cash that can buy a code, at any price.
pub fn cash_params(cano: &str, prdt: &str, code: &str) -> (params: Vec<Param>)
    ensures
        param_views(params@) == orderable_query(cano@, prdt@, code@, 0, "01"@),
{
    orderable_params(cano, prdt, code, 0, "01")
}

/// Asks for how much of a code can be bought at a price, by the kind of order that would buy it.
pub fn qty_params(cano: &str, prdt: &str, code: &str, price: u64) -> (params: Vec<Param>)
    ensures
        param_views(params@) == orderable_query(cano@, prdt@, code@, price, "11"@),
{
    orderable_params(cano, prdt, code, price, "11")
}

/// The cash of a reply: what buys without credit, by which orders are checked, and the cash on hand
/// where that is not told.
///
/// After sales of the same day the cash on hand still counts what is not settled, and an order for
/// it would be turned down.
pub open spec fn orderable(v: JsonView) -> u64 {
    let settled = v.nested("output"@, "nrcvb_buy_amt"@);
    let told = match settled {
        Some(value) => match value.text() {
            Some(text) => !blank(text),
            None => false,
        },
        None => false,
    };
    if told {
        whole_of(field_number(settled))
    } else {
        whole_of(field_number(v.nested("output"@, "ord_psbl_cash"@)))
    }
}

/// The cash of a reply.
pub fn orderable_cash(v: &Json) -> (cash: AppResult<u64>)
    ensures
        match cash {
            Ok(cash) => v@.text_field("rt_cd"@) == Some("0"@) && cash == orderable(v@),
            Err(error) => checked(v@, Err(error)),
        },
{
    if let Err(error) = KisRest::check_rt(v) {
        return Err(error);
    }
    let settled = v.get_nested("output", "nrcvb_buy_amt");
    let told = match settled {
        Some(value) => match value.as_str() {
            Some(text) => !is_blank(text),
            None => false,
        },
        None => false,
    };
    if told {
        Ok(num_u64(settled))
    } else {
        Ok(num_u64(v.get_nested("output", "ord_psbl_cash")))
    }
}

/// The number of shares of a reply, which the broker's check of the order will allow.
pub fn max_buy_qty(v: &Json) -> (qty: AppResult<u64>)
    ensures
        match qty {
            Ok(qty) => v@.text_field("rt_cd"@) == Some("0"@) && qty == whole_of(
                field_number(v@.nested("output"@, "nrcvb_buy_qty"@)),
            ),
            Err(error) => checked(v@, Err(error)),
        },
{
    if let Err(error) = KisRest::check_rt(v) {
        return Err(error);
    }
    Ok(num_u64(v.get_nested("output", "nrcvb_buy_qty")))
}

} // verus!
