//! What the desk's commands decide before they act.

use vstd::prelude::*;

use crate::ledger::kinds::LedgerExecutionKind;
use crate::settings::{
    fixed_symbols, same_symbols, symbol_views, Settings, SettingsView, SymbolConfig, SymbolView,
};
use crate::text::same;
use crate::types::AutoSymbols;

verus! {

/// The codes of some symbols.
pub open spec fn codes(symbols: Seq<SymbolView>) -> Seq<Seq<char>> {
    symbols.map_values(|s: SymbolView| s.code)
}

/// Whether a change of the settings asks for a new connection. A change of what is only shown does
/// not: each new connection costs a burst of requests.
pub open spec fn reconnects(old: SettingsView, new: SettingsView) -> bool {
    ||| old.app_key != new.app_key
    ||| old.app_secret != new.app_secret
    ||| old.cano != new.cano
    ||| old.acnt_prdt_cd != new.acnt_prdt_cd
    ||| old.hts_id != new.hts_id
    ||| old.real_trading_confirmed != new.real_trading_confirmed
    ||| old.exchange != new.exchange
    ||| old.auto_symbols != new.auto_symbols
    ||| codes(old.trade_symbols) != codes(new.trade_symbols)
    ||| codes(old.chart_symbols) != codes(new.chart_symbols)
}

fn same_codes(a: &Vec<SymbolConfig>, b: &Vec<SymbolConfig>) -> (yes: bool)
    ensures
        yes == (codes(symbol_views(a@)) == codes(symbol_views(b@))),
{
    let ghost x = codes(symbol_views(a@));
    let ghost y = codes(symbol_views(b@));
    if a.len() != b.len() {
        assert(x.len() != y.len());
        return false;
    }
    let mut i: usize = 0;
    while i < a.len()
        invariant
            i <= a@.len(),
            a@.len() == b@.len(),
            x == codes(symbol_views(a@)),
            y == codes(symbol_views(b@)),
            forall|k: int| 0 <= k < i ==> #[trigger] x[k] == y[k],
        decreases a@.len() - i,
    {
        assert(x[i as int] == a@[i as int].code@);
        assert(y[i as int] == b@[i as int].code@);
        if !same(a[i].code.as_str(), b[i].code.as_str()) {
            return false;
        }
        i += 1;
    }
    assert(x =~= y);
    true
}

/// Whether a change of the settings asks for a new connection.
pub fn needs_engine_restart(old: &Settings, new: &Settings) -> (yes: bool)
    ensures
        yes == reconnects(old@, new@),
{
    !same(old.app_key.as_str(), new.app_key.as_str()) || !same(
        old.app_secret.as_str(),
        new.app_secret.as_str(),
    ) || !same(old.cano.as_str(), new.cano.as_str()) || !same(
        old.acnt_prdt_cd.as_str(),
        new.acnt_prdt_cd.as_str(),
    ) || !same(old.hts_id.as_str(), new.hts_id.as_str()) || old.real_trading_confirmed
        != new.real_trading_confirmed || !same(old.exchange.as_str(), new.exchange.as_str())
        || !same_symbols(&old.auto_symbols, &new.auto_symbols) || !same_codes(
        &old.trade_symbols,
        &new.trade_symbols,
    ) || !same_codes(&old.chart_symbols, &new.chart_symbols)
}

/// A change of what is only shown never asks for a new connection.
pub proof fn appearance_does_not_reconnect(
    settings: SettingsView,
    theme: Seq<char>,
    chart_interval: u32,
    opacity: i64,
    openai_api_key: Seq<char>,
)
    ensures
        !reconnects(
            settings,
            SettingsView { theme, chart_interval, opacity, openai_api_key, ..settings },
        ),
{
}

/// What saving settings asks.
#[derive(Debug, Clone, Copy, PartialEq, Eq, Structural)]
pub enum SavePlan {
    /// Automation's codes are not to be changed.
    Refuse,
    /// Save, and connect anew once the present connection can be given up.
    Restart,
    /// Save, and hand the settings to the present connection.
    Update,
}

/// What saving settings asks, given whether there is a connection.
pub fn plan_save(old: &Settings, new: &Settings, running: bool) -> (plan: SavePlan)
    ensures
        plan == (if new@.auto_symbols != fixed_symbols() {
            SavePlan::Refuse
        } else if !running || reconnects(old@, new@) {
            SavePlan::Restart
        } else {
            SavePlan::Update
        }),
{
    if !same_symbols(&new.auto_symbols, &AutoSymbols::default()) {
        SavePlan::Refuse
    } else if !running || needs_engine_restart(old, new) {
        SavePlan::Restart
    } else {
        SavePlan::Update
    }
}

/// The kind of records that a name asks for.
pub open spec fn kind_of(name: Seq<char>) -> Option<LedgerExecutionKind> {
    if name == "real"@ {
        Some(LedgerExecutionKind::Real)
    } else if name == "shadow"@ {
        Some(LedgerExecutionKind::Shadow)
    } else {
        None
    }
}

pub fn record_kind(name: &str) -> (kind: Option<LedgerExecutionKind>)
    ensures
        kind == kind_of(name@),
{
    if same(name, "real") {
        Some(LedgerExecutionKind::Real)
    } else if same(name, "shadow") {
        Some(LedgerExecutionKind::Shadow)
    } else {
        None
    }
}

/// Only what a connection is made with asks for a new one: the account, the keys, the exchange, the
/// confirmation and the codes, whatever their labels.
pub proof fn connection_is_of_account_and_codes(old: SettingsView, new: SettingsView, i: int)
    ensures
        old.app_key != new.app_key || old.app_secret != new.app_secret || old.cano != new.cano
            || old.acnt_prdt_cd != new.acnt_prdt_cd || old.hts_id != new.hts_id
            || old.real_trading_confirmed != new.real_trading_confirmed || old.exchange
            != new.exchange || old.auto_symbols != new.auto_symbols ==> reconnects(old, new),
        old.trade_symbols.len() != new.trade_symbols.len() || old.chart_symbols.len()
            != new.chart_symbols.len() ==> reconnects(old, new),
        0 <= i < old.trade_symbols.len() && i < new.trade_symbols.len() && old.trade_symbols[i].code
            != new.trade_symbols[i].code ==> reconnects(old, new),
        0 <= i < old.chart_symbols.len() && i < new.chart_symbols.len() && old.chart_symbols[i].code
            != new.chart_symbols[i].code ==> reconnects(old, new),
        !reconnects(old, old),
{
    let a = codes(old.trade_symbols);
    let b = codes(new.trade_symbols);
    let c = codes(old.chart_symbols);
    let d = codes(new.chart_symbols);
    assert(a.len() == old.trade_symbols.len() && b.len() == new.trade_symbols.len());
    assert(c.len() == old.chart_symbols.len() && d.len() == new.chart_symbols.len());
    if 0 <= i < a.len() && i < b.len() {
        assert(a[i] == old.trade_symbols[i].code && b[i] == new.trade_symbols[i].code);
    }
    if 0 <= i < c.len() && i < d.len() {
        assert(c[i] == old.chart_symbols[i].code && d[i] == new.chart_symbols[i].code);
    }
}

/// Records are asked for as real or as simulated, and by no other name.
pub proof fn records_have_two_kinds(name: Seq<char>)
    ensures
        kind_of("real"@) == Some(LedgerExecutionKind::Real),
        kind_of("shadow"@) == Some(LedgerExecutionKind::Shadow),
        name != "real"@ && name != "shadow"@ ==> kind_of(name) is None,
{
    reveal_strlit("real");
    reveal_strlit("shadow");
    assert("real"@.len() != "shadow"@.len());
}

} // verus!
