//! The desk's settings: what they are by default, how they are read, and what a change of them asks.

use vstd::prelude::*;

use crate::seqs::{first_where, lemma_first_where};
use crate::text::{in_order, insert_in_order, same, views};
use crate::types::AutoSymbols;

verus! {

/// A code on the desk.
#[derive(Debug, PartialEq, Eq)]
pub struct SymbolConfig {
    pub code: String,
    pub label: String,
    /// An ETF trades in steps of five won at any price.
    pub etf: bool,
}

#[verifier::ext_equal]
pub struct SymbolView {
    pub code: Seq<char>,
    pub label: Seq<char>,
    pub etf: bool,
}

impl View for SymbolConfig {
    type V = SymbolView;

    open spec fn view(&self) -> SymbolView {
        SymbolView { code: self.code@, label: self.label@, etf: self.etf }
    }
}

impl Clone for SymbolConfig {
    fn clone(&self) -> (copy: Self)
        ensures
            copy == *self,
    {
        SymbolConfig { code: self.code.clone(), label: self.label.clone(), etf: self.etf }
    }
}

pub open spec fn symbol_views(symbols: Seq<SymbolConfig>) -> Seq<SymbolView> {
    symbols.map_values(|s: SymbolConfig| s@)
}

fn copy_symbols(symbols: &Vec<SymbolConfig>) -> (copy: Vec<SymbolConfig>)
    ensures
        symbol_views(copy@) == symbol_views(symbols@),
{
    let mut copy: Vec<SymbolConfig> = Vec::new();
    let mut i: usize = 0;
    while i < symbols.len()
        invariant
            i <= symbols@.len(),
            symbol_views(copy@) == symbol_views(symbols@).take(i as int),
        decreases symbols@.len() - i,
    {
        let ghost before = symbol_views(copy@);
        copy.push(symbols[i].clone());
        i += 1;
        assert(symbol_views(copy@) =~= before.push(symbols@[i - 1]@));
        assert(symbol_views(symbols@).take(i as int) =~= symbol_views(symbols@).take(i - 1).push(
            symbols@[i - 1]@,
        ));
    }
    assert(symbol_views(symbols@).take(i as int) =~= symbol_views(symbols@));
    copy
}

#[verifier::ext_equal]
pub struct AutoView {
    pub underlying: Seq<char>,
    pub leverage: Seq<char>,
    pub inverse: Seq<char>,
}

impl View for AutoSymbols {
    type V = AutoView;

    open spec fn view(&self) -> AutoView {
        AutoView {
            underlying: self.underlying@,
            leverage: self.leverage@,
            inverse: self.inverse@,
        }
    }
}

impl Clone for AutoSymbols {
    fn clone(&self) -> (copy: Self)
        ensures
            copy == *self,
    {
        AutoSymbols {
            underlying: self.underlying.clone(),
            leverage: self.leverage.clone(),
            inverse: self.inverse.clone(),
        }
    }
}

/// The codes that automation trades.
pub open spec fn fixed_symbols() -> AutoView {
    AutoView { underlying: "000660"@, leverage: "0193T0"@, inverse: "0197X0"@ }
}

/// Whether two choices of codes are the same.
pub fn same_symbols(a: &AutoSymbols, b: &AutoSymbols) -> (yes: bool)
    ensures
        yes == (a@ == b@),
{
    same(a.underlying.as_str(), b.underlying.as_str()) && same(
        a.leverage.as_str(),
        b.leverage.as_str(),
    ) && same(a.inverse.as_str(), b.inverse.as_str())
}

/// The settings.
#[derive(Debug)]
pub struct Settings {
    pub config_version: u32,
    pub app_key: String,
    pub app_secret: String,
    pub cano: String,
    pub acnt_prdt_cd: String,
    pub hts_id: String,
    /// Set once the user has agreed to real trading, so that settings of a demo do not connect to it
    /// unnoticed.
    pub real_trading_confirmed: bool,
    pub openai_api_key: String,
    pub auto_symbols: AutoSymbols,
    pub theme: String,
    /// Where orders go: `KRX`, or `SOR` for the better of two venues.
    pub exchange: String,
    pub trade_symbols: Vec<SymbolConfig>,
    pub chart_symbols: Vec<SymbolConfig>,
    pub chart_interval: u32,
    /// In billionths.
    pub opacity: i64,
}

#[verifier::ext_equal]
pub struct SettingsView {
    pub config_version: u32,
    pub app_key: Seq<char>,
    pub app_secret: Seq<char>,
    pub cano: Seq<char>,
    pub acnt_prdt_cd: Seq<char>,
    pub hts_id: Seq<char>,
    pub real_trading_confirmed: bool,
    pub openai_api_key: Seq<char>,
    pub auto_symbols: AutoView,
    pub theme: Seq<char>,
    pub exchange: Seq<char>,
    pub trade_symbols: Seq<SymbolView>,
    pub chart_symbols: Seq<SymbolView>,
    pub chart_interval: u32,
    pub opacity: i64,
}

impl View for Settings {
    type V = SettingsView;

    open spec fn view(&self) -> SettingsView {
        SettingsView {
            config_version: self.config_version,
            app_key: self.app_key@,
            app_secret: self.app_secret@,
            cano: self.cano@,
            acnt_prdt_cd: self.acnt_prdt_cd@,
            hts_id: self.hts_id@,
            real_trading_confirmed: self.real_trading_confirmed,
            openai_api_key: self.openai_api_key@,
            auto_symbols: self.auto_symbols@,
            theme: self.theme@,
            exchange: self.exchange@,
            trade_symbols: symbol_views(self.trade_symbols@),
            chart_symbols: symbol_views(self.chart_symbols@),
            chart_interval: self.chart_interval,
            opacity: self.opacity,
        }
    }
}

impl Clone for Settings {
    fn clone(&self) -> (copy: Self)
        ensures
            copy@ == self@,
    {
        Settings {
            config_version: self.config_version,
            app_key: self.app_key.clone(),
            app_secret: self.app_secret.clone(),
            cano: self.cano.clone(),
            acnt_prdt_cd: self.acnt_prdt_cd.clone(),
            hts_id: self.hts_id.clone(),
            real_trading_confirmed: self.real_trading_confirmed,
            openai_api_key: self.openai_api_key.clone(),
            auto_symbols: self.auto_symbols.clone(),
            theme: self.theme.clone(),
            exchange: self.exchange.clone(),
            trade_symbols: copy_symbols(&self.trade_symbols),
            chart_symbols: copy_symbols(&self.chart_symbols),
            chart_interval: self.chart_interval,
            opacity: self.opacity,
        }
    }
}

pub fn default_true() -> (yes: bool)
    ensures
        yes,
{
    true
}

pub fn default_theme() -> (theme: String)
    ensures
        theme@ == "default"@,
{
    "default".to_owned()
}

pub fn default_exchange() -> (exchange: String)
    ensures
        exchange@ == "KRX"@,
{
    "KRX".to_owned()
}

pub fn default_account_product_code() -> (code: String)
    ensures
        code@ == "01"@,
{
    "01".to_owned()
}

pub fn default_config_version() -> (version: u32)
    ensures
        version == 2,
{
    2
}

pub fn default_chart_interval() -> (minutes: u32)
    ensures
        minutes == 10,
{
    10
}

/// Nothing shines through.
pub fn default_opacity() -> (opacity: i64)
    ensures
        opacity == 1_000_000_000,
{
    1_000_000_000
}

pub open spec fn listed(code: Seq<char>, label: Seq<char>, etf: bool) -> SymbolView {
    SymbolView { code, label, etf }
}

/// The codes that are traded by default.
pub open spec fn standard_trades() -> Seq<SymbolView> {
    seq![
        listed("0193T0"@, "하이닉스 레버리지"@, true),
        listed("0197X0"@, "하이닉스 곱버스"@, true),
        listed("0193W0"@, "삼전 레버리지"@, true),
        listed("0193L0"@, "삼전 곱버스"@, true),
    ]
}

/// The codes that have a chart by default.
pub open spec fn standard_charts() -> Seq<SymbolView> {
    seq![listed("000660"@, "SK하이닉스"@, false), listed("005930"@, "삼성전자"@, false)]
}

/// The settings by default.
pub open spec fn standard() -> SettingsView {
    SettingsView {
        config_version: 2,
        app_key: Seq::empty(),
        app_secret: Seq::empty(),
        cano: Seq::empty(),
        acnt_prdt_cd: "01"@,
        hts_id: Seq::empty(),
        real_trading_confirmed: false,
        openai_api_key: Seq::empty(),
        auto_symbols: fixed_symbols(),
        theme: "default"@,
        exchange: "KRX"@,
        trade_symbols: standard_trades(),
        chart_symbols: standard_charts(),
        chart_interval: 10,
        opacity: 1_000_000_000,
    }
}

fn symbol(code: &str, label: &str, etf: bool) -> (symbol: SymbolConfig)
    ensures
        symbol@ == listed(code@, label@, etf),
{
    SymbolConfig { code: code.to_owned(), label: label.to_owned(), etf }
}

fn default_trades() -> (symbols: Vec<SymbolConfig>)
    ensures
        symbol_views(symbols@) == standard_trades(),
{
    let mut symbols: Vec<SymbolConfig> = Vec::new();
    symbols.push(symbol("0193T0", "하이닉스 레버리지", true));
    symbols.push(symbol("0197X0", "하이닉스 곱버스", true));
    symbols.push(symbol("0193W0", "삼전 레버리지", true));
    symbols.push(symbol("0193L0", "삼전 곱버스", true));
    assert(symbol_views(symbols@) =~= standard_trades());
    symbols
}

fn default_charts() -> (symbols: Vec<SymbolConfig>)
    ensures
        symbol_views(symbols@) == standard_charts(),
{
    let mut symbols: Vec<SymbolConfig> = Vec::new();
    symbols.push(symbol("000660", "SK하이닉스", false));
    symbols.push(symbol("005930", "삼성전자", false));
    assert(symbol_views(symbols@) =~= standard_charts());
    symbols
}

impl Default for Settings {
    fn default() -> (settings: Self)
        ensures
            settings@ == standard(),
    {
        Settings {
            config_version: default_config_version(),
            app_key: String::new(),
            app_secret: String::new(),
            cano: String::new(),
            acnt_prdt_cd: default_account_product_code(),
            hts_id: String::new(),
            real_trading_confirmed: false,
            openai_api_key: String::new(),
            auto_symbols: AutoSymbols::default(),
            theme: default_theme(),
            exchange: default_exchange(),
            trade_symbols: default_trades(),
            chart_symbols: default_charts(),
            chart_interval: default_chart_interval(),
            opacity: default_opacity(),
        }
    }
}

/// Whether a code is among some symbols.
pub open spec fn among(symbols: Seq<SymbolView>, code: Seq<char>) -> bool {
    exists|i: int| 0 <= i < symbols.len() && (#[trigger] symbols[i]).code == code
}

impl SettingsView {
    /// Whether a code is watched: one of the desk's or one of automation's.
    pub open spec fn watches(self, code: Seq<char>) -> bool {
        ||| among(self.chart_symbols, code)
        ||| among(self.trade_symbols, code)
        ||| code == self.auto_symbols.underlying
        ||| code == self.auto_symbols.leverage
        ||| code == self.auto_symbols.inverse
    }

    /// Whether a code is traded: one of the desk's or one of automation's.
    pub open spec fn trades(self, code: Seq<char>) -> bool {
        ||| among(self.trade_symbols, code)
        ||| code == self.auto_symbols.underlying
        ||| code == self.auto_symbols.leverage
        ||| code == self.auto_symbols.inverse
    }

    /// Whether a code is that of an ETF: automation's codes are what they are, the desk's as they
    /// are listed, traded ones first, and any other counts as one.
    pub open spec fn etf(self, code: Seq<char>) -> bool {
        if code == self.auto_symbols.leverage || code == self.auto_symbols.inverse {
            true
        } else if code == self.auto_symbols.underlying {
            false
        } else {
            let all = self.trade_symbols + self.chart_symbols;
            let i = first_where(all, |s: SymbolView| s.code == code);
            if i < all.len() {
                all[i].etf
            } else {
                true
            }
        }
    }
}

fn insert_codes(codes: &mut Vec<String>, symbols: &Vec<SymbolConfig>)
    requires
        in_order(views(old(codes)@)),
    ensures
        in_order(views(final(codes)@)),
        forall|code: Seq<char>|
            #[trigger] views(final(codes)@).contains(code) <==> (views(old(codes)@).contains(code)
                || among(symbol_views(symbols@), code)),
{
    let ghost before = views(codes@);
    let ghost all = symbol_views(symbols@);
    let mut i: usize = 0;
    while i < symbols.len()
        invariant
            i <= symbols@.len(),
            all == symbol_views(symbols@),
            before == views(old(codes)@),
            in_order(views(codes@)),
            forall|code: Seq<char>|
                #[trigger] views(codes@).contains(code) <==> (before.contains(code) || exists|k: int|
                    0 <= k < i && (#[trigger] all[k]).code == code),
        decreases symbols@.len() - i,
    {
        let ghost prior = views(codes@);
        assert(all[i as int] == symbols@[i as int]@);
        insert_in_order(codes, symbols[i].code.as_str());
        proof {
            assert forall|code: Seq<char>| #[trigger] views(codes@).contains(code) <==> (
            before.contains(code) || exists|k: int|
                0 <= k < i + 1 && (#[trigger] all[k]).code == code) by {
                assert(prior.contains(code) || !prior.contains(code));
                if code == all[i as int].code {
                    assert(all[i as int].code == code);
                }
            }
        }
        i += 1;
    }
}

impl Settings {
    /// Every code that is watched, in order, none twice.
    pub fn all_codes(&self) -> (codes: Vec<String>)
        ensures
            in_order(views(codes@)),
            forall|code: Seq<char>| #[trigger]
                views(codes@).contains(code) <==> self@.watches(code),
    {
        let mut codes: Vec<String> = Vec::new();
        insert_codes(&mut codes, &self.chart_symbols);
        let ghost a = views(codes@);
        insert_codes(&mut codes, &self.trade_symbols);
        let ghost b = views(codes@);
        insert_in_order(&mut codes, self.auto_symbols.underlying.as_str());
        let ghost c = views(codes@);
        insert_in_order(&mut codes, self.auto_symbols.leverage.as_str());
        let ghost d = views(codes@);
        insert_in_order(&mut codes, self.auto_symbols.inverse.as_str());
        proof {
            assert forall|code: Seq<char>| #[trigger] views(codes@).contains(code)
                <==> self@.watches(code) by {
                assert(a.contains(code) || !a.contains(code));
                assert(b.contains(code) || !b.contains(code));
                assert(c.contains(code) || !c.contains(code));
                assert(d.contains(code) || !d.contains(code));
            }
        }
        codes
    }

    /// Every code that is traded, in order, none twice.
    pub fn trade_codes(&self) -> (codes: Vec<String>)
        ensures
            in_order(views(codes@)),
            forall|code: Seq<char>| #[trigger]
                views(codes@).contains(code) <==> self@.trades(code),
    {
        let mut codes: Vec<String> = Vec::new();
        insert_codes(&mut codes, &self.trade_symbols);
        let ghost b = views(codes@);
        insert_in_order(&mut codes, self.auto_symbols.underlying.as_str());
        let ghost c = views(codes@);
        insert_in_order(&mut codes, self.auto_symbols.leverage.as_str());
        let ghost d = views(codes@);
        insert_in_order(&mut codes, self.auto_symbols.inverse.as_str());
        proof {
            assert forall|code: Seq<char>| #[trigger] views(codes@).contains(code)
                <==> self@.trades(code) by {
                assert(b.contains(code) || !b.contains(code));
                assert(c.contains(code) || !c.contains(code));
                assert(d.contains(code) || !d.contains(code));
            }
        }
        codes
    }

    /// Whether a code is that of an ETF.
    pub fn is_etf(&self, code: &str) -> (yes: bool)
        ensures
            yes == self@.etf(code@),
    {
        if same(code, self.auto_symbols.leverage.as_str()) || same(
            code,
            self.auto_symbols.inverse.as_str(),
        ) {
            return true;
        }
        if same(code, self.auto_symbols.underlying.as_str()) {
            return false;
        }
        let ghost trades = symbol_views(self.trade_symbols@);
        let ghost charts = symbol_views(self.chart_symbols@);
        let ghost all = trades + charts;
        let ghost p = |s: SymbolView| s.code == code@;
        let mut found: Option<bool> = None;
        let mut at: usize = 0;
        while at < self.trade_symbols.len() && found.is_none()
            invariant
                at <= self.trade_symbols@.len(),
                trades == symbol_views(self.trade_symbols@),
                all == trades + symbol_views(self.chart_symbols@),
                p == (|s: SymbolView| s.code == code@),
                match found {
                    Some(etf) => at > 0 && first_where(all, p) == at - 1 && etf == all[at - 1].etf,
                    None => forall|k: int| 0 <= k < at ==> !p(#[trigger] all[k]),
                },
            decreases self.trade_symbols@.len() - at,
        {
            assert(all[at as int] == self.trade_symbols@[at as int]@);
            if same(self.trade_symbols[at].code.as_str(), code) {
                proof {
                    lemma_first_where(all, p, at as int);
                }
                found = Some(self.trade_symbols[at].etf);
            }
            at += 1;
        }
        if let Some(etf) = found {
            return etf;
        }
        let ghost n = trades.len() as int;
        let mut i: usize = 0;
        while i < self.chart_symbols.len()
            invariant
                i <= self.chart_symbols@.len(),
                n == trades.len(),
                charts == symbol_views(self.chart_symbols@),
                all == trades + charts,
                p == (|s: SymbolView| s.code == code@),
                self@.trade_symbols == trades,
                self@.chart_symbols == charts,
                code@ != self@.auto_symbols.leverage,
                code@ != self@.auto_symbols.inverse,
                code@ != self@.auto_symbols.underlying,
                forall|k: int| 0 <= k < n + i ==> !p(#[trigger] all[k]),
            decreases self.chart_symbols@.len() - i,
        {
            assert(all[n + i] == self.chart_symbols@[i as int]@);
            if same(self.chart_symbols[i].code.as_str(), code) {
                proof {
                    lemma_first_where(all, p, n + i);
                }
                return self.chart_symbols[i].etf;
            }
            i += 1;
        }
        proof {
            lemma_first_where(all, p, n + i);
        }
        true
    }
}

/// A code is watched where it is on a list or one of automation's, and traded where it is on the list
/// of those or one of automation's; what is traded is watched.
pub proof fn traded_codes_are_watched(settings: SettingsView, code: Seq<char>, i: int)
    ensures
        settings.trades(code) ==> settings.watches(code),
        0 <= i < settings.trade_symbols.len() ==> settings.trades(settings.trade_symbols[i].code),
        0 <= i < settings.chart_symbols.len() ==> settings.watches(settings.chart_symbols[i].code),
        settings.trades(settings.auto_symbols.underlying) && settings.trades(
            settings.auto_symbols.leverage,
        ) && settings.trades(settings.auto_symbols.inverse),
        settings.watches(code) && !settings.trades(code) ==> among(settings.chart_symbols, code),
{
}

/// Automation trades two ETFs on a share. Any other code is an ETF or not as it is listed, the list of
/// traded codes first, and counts as one where it is on none.
pub proof fn codes_are_etfs_as_listed(settings: SettingsView, code: Seq<char>, i: int)
    ensures
        settings.etf(settings.auto_symbols.leverage) && settings.etf(settings.auto_symbols.inverse),
        settings.auto_symbols.underlying != settings.auto_symbols.leverage
            && settings.auto_symbols.underlying != settings.auto_symbols.inverse ==> !settings.etf(
            settings.auto_symbols.underlying,
        ),
        code != settings.auto_symbols.leverage && code != settings.auto_symbols.inverse && code
            != settings.auto_symbols.underlying ==> {
            &&& 0 <= i < settings.trade_symbols.len() && settings.trade_symbols[i].code == code && (
            forall|k: int| 0 <= k < i ==> (#[trigger] settings.trade_symbols[k]).code != code)
                ==> settings.etf(code) == settings.trade_symbols[i].etf
            &&& !settings.watches(code) ==> settings.etf(code)
        },
{
    let all = settings.trade_symbols + settings.chart_symbols;
    let p = |s: SymbolView| s.code == code;
    if code != settings.auto_symbols.leverage && code != settings.auto_symbols.inverse && code
        != settings.auto_symbols.underlying {
        if 0 <= i < settings.trade_symbols.len() && settings.trade_symbols[i].code == code && (
        forall|k: int| 0 <= k < i ==> (#[trigger] settings.trade_symbols[k]).code != code) {
            assert forall|k: int| 0 <= k < i implies !p(#[trigger] all[k]) by {
                assert(settings.trade_symbols[k].code != code);
            }
            assert(p(all[i]));
            crate::seqs::lemma_first_where(all, p, i);
        }
        if !settings.watches(code) {
            assert forall|k: int| 0 <= k < all.len() implies !p(#[trigger] all[k]) by {
                if k < settings.trade_symbols.len() {
                    assert(settings.trade_symbols[k].code == all[k].code);
                } else {
                    assert(settings.chart_symbols[k - settings.trade_symbols.len()].code
                        == all[k].code);
                }
            }
            crate::seqs::lemma_first_where(all, p, all.len() as int);
        }
    }
}

/// By default nothing is confirmed and no account is named, and automation trades its own codes, which
/// are listed.
pub proof fn standard_settings_trade_nothing_real()
    ensures
        !standard().real_trading_confirmed,
        standard().app_key.len() == 0 && standard().app_secret.len() == 0 && standard().cano.len()
            == 0 && standard().openai_api_key.len() == 0,
        standard().config_version == 2,
        among(standard().trade_symbols, standard().auto_symbols.leverage),
        among(standard().trade_symbols, standard().auto_symbols.inverse),
        among(standard().chart_symbols, standard().auto_symbols.underlying),
{
    assert(standard_trades()[0].code == "0193T0"@);
    assert(standard_trades()[1].code == "0197X0"@);
    assert(standard_charts()[0].code == "000660"@);
}

} // verus!
