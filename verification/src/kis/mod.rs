//! The broker's interface: requests, replies, and the rules around them.

use vstd::prelude::*;

use crate::error::{is_config, AppError, AppResult};
use crate::kis::order::{
    buy_division, cancel_order, cancellation_body, order_body, order_cash, order_transaction,
    OrderRequest, CANCEL_TR, ORD_DVSN_IOC_LIMIT, ORD_DVSN_LIMIT, ORD_DVSN_MARKET, PATH_CANCEL,
    PATH_ORDER,
};
use crate::kis::rest::{KisRest, REAL_BASE, REAL_WS};
use crate::kis::ws::{sub_view, sub_views, SubscriptionId, WsConfig};
use crate::settings::Settings;
use crate::text::{same, views};
use crate::types::Side;

pub mod account;
pub mod auth;
pub mod calendar;
pub mod crypto;
pub mod inquiry;
pub mod laws;
pub mod numbers;
pub mod order;
pub mod quote;
pub mod rest;
pub mod ws;

verus! {

/// The broker: how it is reached, and for which account.
#[derive(Debug)]
pub struct KisBroker {
    pub rest: KisRest,
    pub settings: Settings,
}

/// Whether a code is among some.
fn is_among(codes: &Vec<String>, code: &str) -> (yes: bool)
    ensures
        yes == views(codes@).contains(code@),
{
    let ghost all = views(codes@);
    let mut i: usize = 0;
    while i < codes.len()
        invariant
            i <= codes@.len(),
            all == views(codes@),
            forall|k: int| 0 <= k < i ==> #[trigger] all[k] != code@,
        decreases codes@.len() - i,
    {
        assert(all[i as int] == codes@[i as int]@);
        if same(codes[i].as_str(), code) {
            return true;
        }
        i += 1;
    }
    false
}

/// The prices of a code: of the exchange alone where it is traded, of both venues together where it
/// is only looked at. A code with both would have its shares counted twice.
pub open spec fn price_sub(code: Seq<char>, traded: Seq<Seq<char>>) -> (Seq<char>, Seq<char>) {
    (
        if traded.contains(code) {
            "H0STCNT0"@
        } else {
            "H0UNCNT0"@
        },
        code,
    )
}

/// What is subscribed to: the prices of every code, and the books of those that are traded.
pub open spec fn subscriptions(all: Seq<Seq<char>>, traded: Seq<Seq<char>>) -> Seq<
    (Seq<char>, Seq<char>),
> {
    all.map_values(|code: Seq<char>| price_sub(code, traded)) + traded.map_values(
        |code: Seq<char>| ("H0STASP0"@, code),
    )
}

/// What is subscribed to. The venues together send nothing for some new codes of ETFs, so that
/// traded codes are subscribed to at the exchange alone.
pub fn build_subs(all_codes: &Vec<String>, trade_codes: &Vec<String>) -> (subs: Vec<SubscriptionId>)
    ensures
        sub_views(subs@) == subscriptions(views(all_codes@), views(trade_codes@)),
{
    let ghost all = views(all_codes@);
    let ghost traded = views(trade_codes@);
    let ghost target = subscriptions(all, traded);
    let mut subs: Vec<SubscriptionId> = Vec::new();
    let mut i: usize = 0;
    assert(sub_views(subs@) =~= target.take(0));
    while i < all_codes.len()
        invariant
            i <= all_codes@.len(),
            all == views(all_codes@),
            traded == views(trade_codes@),
            target == subscriptions(all, traded),
            sub_views(subs@) == target.take(i as int),
        decreases all_codes@.len() - i,
    {
        let ghost before = sub_views(subs@);
        assert(all[i as int] == all_codes@[i as int]@);
        let code = all_codes[i].as_str();
        let tr = if is_among(trade_codes, code) {
            "H0STCNT0"
        } else {
            "H0UNCNT0"
        };
        let sub = (tr.to_owned(), code.to_owned());
        subs.push(sub);
        assert(sub_views(subs@) =~= before.push(sub_view(sub)));
        assert(target[i as int] == sub_view(sub));
        i += 1;
        assert(target.take(i as int) =~= target.take(i - 1).push(target[i - 1]));
    }
    let ghost n = all.len() as int;
    let mut k: usize = 0;
    while k < trade_codes.len()
        invariant
            k <= trade_codes@.len(),
            n == all.len(),
            traded == views(trade_codes@),
            target == subscriptions(all, traded),
            sub_views(subs@) == target.take(n + k),
        decreases trade_codes@.len() - k,
    {
        let ghost before = sub_views(subs@);
        assert(traded[k as int] == trade_codes@[k as int]@);
        let sub = ("H0STASP0".to_owned(), trade_codes[k].clone());
        subs.push(sub);
        assert(sub_views(subs@) =~= before.push(sub_view(sub)));
        assert(target[n + k] == sub_view(sub));
        k += 1;
        assert(target.take(n + k) =~= target.take(n + k - 1).push(target[n + k - 1]));
    }
    assert(target.take(n + k) =~= target);
    subs
}

/// A code that is traded is subscribed to at the exchange alone, and its book is; a code that is
/// not has no book. Prices of a code that is listed once come once.
pub proof fn prices_come_once(all: Seq<Seq<char>>, traded: Seq<Seq<char>>, code: Seq<char>)
    requires
        all.contains(code),
    ensures
        subscriptions(all, traded).contains(price_sub(code, traded)),
        subscriptions(all, traded).contains(("H0STASP0"@, code)) <==> traded.contains(code),
        subscriptions(all, traded).contains(("H0UNCNT0"@, code)) <==> !traded.contains(code),
        subscriptions(all, traded).contains(("H0STCNT0"@, code)) <==> traded.contains(code),
{
    reveal_strlit("H0STASP0");
    reveal_strlit("H0STCNT0");
    reveal_strlit("H0UNCNT0");
    let subs = subscriptions(all, traded);
    let i = choose|i: int| 0 <= i < all.len() && all[i] == code;
    assert("H0STASP0"@[4] == 'A' && "H0STCNT0"@[4] == 'C' && "H0UNCNT0"@[4] == 'C');
    assert("H0STCNT0"@[2] == 'S' && "H0UNCNT0"@[2] == 'U');
    assert(subs[i] == price_sub(code, traded));
    if traded.contains(code) {
        let k = choose|k: int| 0 <= k < traded.len() && traded[k] == code;
        assert(subs[all.len() + k] == ("H0STASP0"@, code));
    }
    if subs.contains(("H0STASP0"@, code)) {
        let k = choose|k: int| 0 <= k < subs.len() && subs[k] == ("H0STASP0"@, code);
        if k < all.len() {
            assert(subs[k] == price_sub(all[k], traded));
        } else {
            assert(traded[k - all.len()] == code);
        }
    }
    if subs.contains(("H0UNCNT0"@, code)) {
        let k = choose|k: int| 0 <= k < subs.len() && subs[k] == ("H0UNCNT0"@, code);
        if k < all.len() {
            assert(subs[k] == price_sub(all[k], traded));
        } else {
            assert(subs[k].0 == "H0STASP0"@);
        }
    }
    if subs.contains(("H0STCNT0"@, code)) {
        let k = choose|k: int| 0 <= k < subs.len() && subs[k] == ("H0STCNT0"@, code);
        if k < all.len() {
            assert(subs[k] == price_sub(all[k], traded));
        } else {
            assert(subs[k].0 == "H0STASP0"@);
        }
    }
}

impl KisBroker {
    /// The broker for an account, once there is one and real trading was agreed to.
    pub fn new(settings: &Settings) -> (broker: AppResult<KisBroker>)
        ensures
            match broker {
                Ok(broker) => {
                    &&& settings@.cano.len() > 0
                    &&& settings@.real_trading_confirmed
                    &&& settings@.app_key.len() > 0 && settings@.app_secret.len() > 0
                    &&& broker.settings@ == settings@
                    &&& broker.rest.base@ == REAL_BASE@
                    &&& broker.rest.app_key@ == settings@.app_key
                    &&& broker.rest.app_secret@ == settings@.app_secret
                },
                Err(error) => if settings@.cano.len() == 0 {
                    is_config(error, "계좌번호가 설정되지 않았습니다"@)
                } else if !settings@.real_trading_confirmed {
                    is_config(error, "실전 연결 확인이 필요합니다"@)
                } else {
                    &&& settings@.app_key.len() == 0 || settings@.app_secret.len() == 0
                    &&& is_config(error, "APP KEY/SECRET이 설정되지 않았습니다"@)
                },
            },
    {
        if settings.cano.as_str().unicode_len() == 0 {
            return Err(AppError::Config("계좌번호가 설정되지 않았습니다".to_owned()));
        }
        match KisRest::new(settings) {
            Ok(rest) => Ok(KisBroker { rest, settings: settings.clone() }),
            Err(error) => Err(error),
        }
    }

    /// The code by which the account's cash is asked for: the first that is traded.
    pub fn cash_code(&self) -> (code: &str)
        ensures
            code@ == (if self.settings@.trade_symbols.len() > 0 {
                self.settings@.trade_symbols[0].code
            } else {
                "005930"@
            }),
    {
        assert(self.settings@.trade_symbols.len() == self.settings.trade_symbols@.len());
        if self.settings.trade_symbols.len() > 0 {
            assert(self.settings@.trade_symbols[0] == self.settings.trade_symbols@[0]@);
            self.settings.trade_symbols[0].code.as_str()
        } else {
            "005930"
        }
    }

    /// Buys at a limit. What an immediate order does not fill at once is taken back.
    pub fn place_buy(&self, code: &str, qty: u64, limit_price: u64, ioc: bool) -> (request:
        OrderRequest)
        ensures
            request.path@ == PATH_ORDER@,
            request.tr_id@ == order_transaction(Side::Buy),
            request.body@ == order_body(
                self.settings@.cano,
                self.settings@.acnt_prdt_cd,
                code@,
                qty,
                if ioc {
                    ORD_DVSN_IOC_LIMIT@
                } else {
                    ORD_DVSN_LIMIT@
                },
                limit_price,
                self.settings@.exchange,
            ),
    {
        order_cash(
            self.settings.cano.as_str(),
            self.settings.acnt_prdt_cd.as_str(),
            Side::Buy,
            code,
            qty,
            buy_division(ioc),
            limit_price,
            self.settings.exchange.as_str(),
        )
    }

    /// Sells at any price.
    pub fn place_sell_market(&self, code: &str, qty: u64) -> (request: OrderRequest)
        ensures
            request.path@ == PATH_ORDER@,
            request.tr_id@ == order_transaction(Side::Sell),
            request.body@ == order_body(
                self.settings@.cano,
                self.settings@.acnt_prdt_cd,
                code@,
                qty,
                ORD_DVSN_MARKET@,
                0,
                self.settings@.exchange,
            ),
    {
        order_cash(
            self.settings.cano.as_str(),
            self.settings.acnt_prdt_cd.as_str(),
            Side::Sell,
            code,
            qty,
            ORD_DVSN_MARKET,
            0,
            self.settings.exchange.as_str(),
        )
    }

    /// Sells at a limit, which waits for its price.
    pub fn place_sell_limit(&self, code: &str, qty: u64, limit_price: u64) -> (request: OrderRequest)
        ensures
            request.path@ == PATH_ORDER@,
            request.tr_id@ == order_transaction(Side::Sell),
            request.body@ == order_body(
                self.settings@.cano,
                self.settings@.acnt_prdt_cd,
                code@,
                qty,
                ORD_DVSN_LIMIT@,
                limit_price,
                self.settings@.exchange,
            ),
    {
        order_cash(
            self.settings.cano.as_str(),
            self.settings.acnt_prdt_cd.as_str(),
            Side::Sell,
            code,
            qty,
            ORD_DVSN_LIMIT,
            limit_price,
            self.settings.exchange.as_str(),
        )
    }

    /// Takes back what is left of an order.
    pub fn cancel_order(&self, order_no: &str, org_no: &str) -> (request: OrderRequest)
        ensures
            request.path@ == PATH_CANCEL@,
            request.tr_id@ == CANCEL_TR@,
            request.body@ == cancellation_body(
                self.settings@.cano,
                self.settings@.acnt_prdt_cd,
                order_no@,
                org_no@,
                self.settings@.exchange,
            ),
    {
        cancel_order(
            self.settings.cano.as_str(),
            self.settings.acnt_prdt_cd.as_str(),
            order_no,
            org_no,
            self.settings.exchange.as_str(),
        )
    }

    /// What the feed connects with: all codes that are watched, and the user's notices where the
    /// user is known.
    pub fn feed_config(&self, approval_key: String) -> (cfg: WsConfig)
        ensures
            cfg.url@ == REAL_WS@,
            cfg.approval_key@ == approval_key@,
            exists|all: Seq<Seq<char>>, traded: Seq<Seq<char>>|
                #![trigger subscriptions(all, traded)]
                {
                    &&& sub_views(cfg.subs@) == subscriptions(all, traded)
                    &&& crate::text::in_order(all)
                    &&& crate::text::in_order(traded)
                    &&& forall|code: Seq<char>| #[trigger]
                        all.contains(code) <==> self.settings@.watches(code)
                    &&& forall|code: Seq<char>| #[trigger]
                        traded.contains(code) <==> self.settings@.trades(code)
                },
            match cfg.notice {
                Some(notice) => self.settings@.hts_id.len() > 0 && sub_view(notice) == (
                    "H0STCNI0"@,
                    self.settings@.hts_id,
                ),
                None => self.settings@.hts_id.len() == 0,
            },
    {
        let all = self.settings.all_codes();
        let traded = self.settings.trade_codes();
        let notice = if self.settings.hts_id.as_str().unicode_len() == 0 {
            None
        } else {
            Some(("H0STCNI0".to_owned(), self.settings.hts_id.clone()))
        };
        let subs = build_subs(&all, &traded);
        WsConfig { url: self.rest.ws_url().to_owned(), approval_key, subs, notice }
    }
}

} // verus!
