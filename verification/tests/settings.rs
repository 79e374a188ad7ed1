use easy_scalping::commands::{needs_engine_restart, plan_save, record_kind, SavePlan};
use easy_scalping::config::{
    config_path, load, migrate, migrate_legacy_dir, read_settings, token_path, trading_db_path,
    SettingsFault,
};
use easy_scalping::json::read_json;
use easy_scalping::ledger::kinds::LedgerExecutionKind;
use easy_scalping::settings::{same_symbols, Settings};
use easy_scalping::types::AutoSymbols;

#[test]
fn ui_only_changes_do_not_restart() {
    let old = Settings::default();
    let mut new = old.clone();
    new.opacity = 500_000_000;
    new.chart_interval = 15;
    new.theme = "mono".into();
    new.trade_symbols[0].label = "라벨만 변경".into();
    assert!(!needs_engine_restart(&old, &new));
    assert_eq!(plan_save(&old, &new, true), SavePlan::Update);
}

#[test]
fn broker_changes_do_restart() {
    let old = Settings::default();

    let mut keys = old.clone();
    keys.app_key = "NEW".into();
    assert!(needs_engine_restart(&old, &keys));
    assert_eq!(plan_save(&old, &keys, true), SavePlan::Restart);

    let mut exch = old.clone();
    exch.exchange = "SOR".into();
    assert!(needs_engine_restart(&old, &exch));

    let mut sym = old.clone();
    sym.trade_symbols[0].code = "999999".into();
    assert!(needs_engine_restart(&old, &sym));

    let mut confirmation = old.clone();
    confirmation.real_trading_confirmed = true;
    assert!(needs_engine_restart(&old, &confirmation));

    let mut auto_symbol = old.clone();
    auto_symbol.auto_symbols.leverage = "999999".into();
    assert!(needs_engine_restart(&old, &auto_symbol));
    assert_eq!(plan_save(&old, &auto_symbol, true), SavePlan::Refuse);
}

#[test]
fn old_real_is_confirmed() {
    let raw = "{\"appKey\":\"k\",\"appSecret\":\"s\",\"cano\":\"1\",\"acntPrdtCd\":\"01\",\"htsId\":\"\",\"mode\":\"real\",\"tradeSymbols\":[],\"chartSymbols\":[],\"chartInterval\":10,\"opacity\":1}";
    let settings = migrate(raw).unwrap();
    assert!(settings.real_trading_confirmed);
    assert!(!settings.trade_symbols.is_empty());
}

#[test]
fn old_paper_requires_real_confirmation() {
    let raw = "{\"appKey\":\"k\",\"appSecret\":\"s\",\"cano\":\"1\",\"acntPrdtCd\":\"01\",\"htsId\":\"\",\"mode\":\"paper\",\"tradeSymbols\":[],\"chartSymbols\":[],\"chartInterval\":10,\"opacity\":1}";
    let settings = migrate(raw).unwrap();
    assert!(!settings.real_trading_confirmed);
    assert_eq!(settings.app_key, "k");
}

#[test]
fn auto_symbols_are_always_fixed_to_sk_hynix() {
    let raw = "{\"configVersion\":2,\"autoSymbols\":{\"underlying\":\"005930\",\"leverage\":\"111111\",\"inverse\":\"222222\"}}";
    let settings = migrate(raw).unwrap();
    assert_eq!(settings.auto_symbols, AutoSymbols::default());
    assert!(same_symbols(&settings.auto_symbols, &AutoSymbols::default()));
}

#[test]
fn settings_deserializes_old_config_with_defaults() {
    let old = "{\"appKey\":\"\",\"appSecret\":\"\",\"cano\":\"\",\"acntPrdtCd\":\"01\",\"htsId\":\"\",\"mode\":\"demo\",\"tradeSymbols\":[{\"code\":\"0193T0\",\"label\":\"L\",\"etf\":true}],\"chartSymbols\":[{\"code\":\"000660\",\"label\":\"H\",\"etf\":false}],\"bufferTicks\":2,\"chartInterval\":10,\"opacity\":1.0}";
    let s = read_settings(&read_json(old).unwrap()).unwrap();
    assert_eq!(s.theme, "default");
    assert_eq!(s.exchange, "KRX");
    assert_eq!(s.auto_symbols.underlying, "000660");
    assert!(!s.real_trading_confirmed);
    assert_eq!(s.opacity, 1_000_000_000);
    assert_eq!(s.trade_symbols.len(), 1);
}

#[test]
fn settings_that_cannot_be_read_are_the_default() {
    assert_eq!(
        migrate("?").unwrap_err(),
        SettingsFault::Unreadable("expected value at line 1 column 1".into())
    );
    assert_eq!(migrate("{\"theme\":1}").unwrap_err(), SettingsFault::Mistyped);
    let (settings, _) = load(Some("?"));
    assert_eq!(settings.exchange, "KRX");
    assert!(!settings.real_trading_confirmed);
    let (settings, _) = load(None);
    assert_eq!(settings.trade_symbols.len(), 4);
}

#[test]
fn settings_come_as_lists_too() {
    let symbols = "[[\"0193T0\",\"L\"],[\"000660\",\"H\",false]]";
    let value = format!(
        "[2,\"k\",\"s\",\"1\",\"02\",\"\",true,\"\",[\"a\",\"b\",\"c\"],\"mono\",\"SOR\",{symbols}]"
    );
    let read = read_settings(&read_json(&value).unwrap()).unwrap();
    assert_eq!(read.config_version, 2);
    assert_eq!(read.acnt_prdt_cd, "02");
    assert!(read.real_trading_confirmed);
    assert_eq!(read.auto_symbols.inverse, "c");
    assert_eq!(read.exchange, "SOR");
    assert_eq!(read.trade_symbols.len(), 2);
    assert!(read.trade_symbols[0].etf);
    assert!(!read.trade_symbols[1].etf);
    assert_eq!(read.chart_interval, 10);
    assert_eq!(read.opacity, 1_000_000_000);

    let settings = |text: &str| read_settings(&read_json(text).unwrap()).is_some();
    assert!(settings("[]"));
    assert!(!settings("[\"k\"]"));
    assert!(!settings("[2,\"\",\"\",\"\",\"\",\"\",true,\"\",[\"a\",\"b\"]]"));
    assert!(!settings("{\"tradeSymbols\":[[\"0193T0\"]]}"));
    assert!(!settings("{\"tradeSymbols\":[[\"0193T0\",\"L\",true,true]]}"));
    assert!(!settings(
        "[2,\"\",\"\",\"\",\"\",\"\",true,\"\",[\"a\",\"b\",\"c\"],\"\",\"\",[],[],10,1,1]"
    ));
    assert!(!migrate("[2,\"\",\"\",\"\",\"\",\"\",true]").unwrap().real_trading_confirmed);
}

#[test]
fn opacity_is_read_with_an_exponent() {
    let opacity = |text: &str| {
        let value = format!("{{\"opacity\":{text}}}");
        read_settings(&read_json(&value).unwrap()).unwrap().opacity
    };
    assert_eq!(opacity("5e-1"), 500_000_000);
    assert_eq!(opacity("0.75"), 750_000_000);
    assert_eq!(opacity("1"), 1_000_000_000);
}

#[test]
fn files_have_their_places() {
    assert!(config_path().ends_with("config.json"));
    assert!(token_path().contains("easy-scalping"));
    assert!(trading_db_path().contains("easy-scalping"));
    assert!(migrate_legacy_dir(true, false));
    assert!(!migrate_legacy_dir(true, true));
    assert!(!migrate_legacy_dir(false, false));
}

#[test]
fn codes_come_in_order() {
    let settings = Settings::default();
    assert_eq!(
        settings.all_codes(),
        vec!["000660", "005930", "0193L0", "0193T0", "0193W0", "0197X0"]
    );
    assert_eq!(
        settings.trade_codes(),
        vec!["000660", "0193L0", "0193T0", "0193W0", "0197X0"]
    );
    assert!(settings.is_etf("0193T0"));
    assert!(!settings.is_etf("000660"));
    assert!(!settings.is_etf("005930"));
    assert!(settings.is_etf("unknown"));
}

#[test]
fn records_are_asked_for_by_kind() {
    assert_eq!(record_kind("real"), Some(LedgerExecutionKind::Real));
    assert_eq!(record_kind("shadow"), Some(LedgerExecutionKind::Shadow));
    assert_eq!(record_kind("x"), None);
}
