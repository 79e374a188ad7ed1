//! Where the settings are kept, and how those of earlier versions are taken over.

use vstd::prelude::*;

use crate::amounts::{billionths, parse_billionths};
use crate::json::{json_of, json_read, lemma_list_says, read_json, Json, JsonView};
use crate::settings::{
    default_account_product_code, default_chart_interval, default_config_version, default_exchange,
    default_opacity, default_theme, default_true, fixed_symbols, same_symbols, standard_charts,
    standard_trades, symbol_views, AutoView, Settings, SettingsView, SymbolConfig, SymbolView,
};
use crate::tables::rows;
use crate::text::joined;
use crate::types::AutoSymbols;

verus! {

/// The desk's directory, in the user's directory for settings.
pub const DIRECTORY: &'static str = "easy-scalping";

/// The directory under the desk's former name.
pub const LEGACY_DIRECTORY: &'static str = "quick-trade";

/// The desk's directory, from the user's directory for settings.
pub fn config_dir() -> (dir: String)
    ensures
        dir@ == "easy-scalping"@,
{
    DIRECTORY.to_owned()
}

/// Whether the directory under the former name is to be renamed: where there is one, and none under
/// the present name.
pub fn migrate_legacy_dir(legacy_exists: bool, current_exists: bool) -> (rename: bool)
    ensures
        rename == (legacy_exists && !current_exists),
{
    legacy_exists && !current_exists
}

fn in_directory(file: &str) -> (path: String)
    ensures
        path@ == "easy-scalping"@ + "/"@ + file@,
{
    let mut path = joined(DIRECTORY, "/");
    path.append(file);
    path
}

/// The file of the settings, from the user's directory for settings.
pub fn config_path() -> (path: String)
    ensures
        path@ == "easy-scalping"@ + "/"@ + "config.json"@,
{
    in_directory("config.json")
}

/// The file of the access token.
pub fn token_path() -> (path: String)
    ensures
        path@ == "easy-scalping"@ + "/"@ + "token.json"@,
{
    in_directory("token.json")
}

/// The file of the ledger.
pub fn trading_db_path() -> (path: String)
    ensures
        path@ == "easy-scalping"@ + "/"@ + "trading.db"@,
{
    in_directory("trading.db")
}

/// A text among the settings: one that is not there is the default, and what is no text is none.
pub open spec fn text_setting(
    value: JsonView,
    name: Seq<char>,
    place: int,
    default: Seq<char>,
) -> Option<Seq<char>> {
    match value.part(name, place) {
        None => Some(default),
        Some(found) => found.text(),
    }
}

pub open spec fn flag_setting(
    value: JsonView,
    name: Seq<char>,
    place: int,
    default: bool,
) -> Option<bool> {
    match value.part(name, place) {
        None => Some(default),
        Some(JsonView::Bool(flag)) => Some(flag),
        _ => None,
    }
}

pub open spec fn number_setting(
    value: JsonView,
    name: Seq<char>,
    place: int,
    default: u32,
) -> Option<u32> {
    match value.part(name, place) {
        None => Some(default),
        Some(found) => match found.unsigned() {
            Some(n) => if n <= u32::MAX {
                Some(n as u32)
            } else {
                None
            },
            None => None,
        },
    }
}

pub open spec fn opacity_setting(value: JsonView) -> Option<i64> {
    match value.part("opacity"@, 14) {
        None => Some(1_000_000_000),
        Some(JsonView::Number(text)) => billionths(text),
        _ => None,
    }
}

/// A symbol, where it has a code and a label.
pub open spec fn symbol_of(value: JsonView) -> Option<SymbolView> {
    match (
        value.text_part("code"@, 0),
        value.text_part("label"@, 1),
        flag_setting(value, "etf"@, 2, true),
    ) {
        (Some(code), Some(label), Some(etf)) => if value.is_record(3) {
            Some(SymbolView { code, label, etf })
        } else {
            None
        },
        _ => None,
    }
}

/// The first symbols of a list, where each is one.
pub open spec fn symbols_of(items: Seq<JsonView>) -> Option<Seq<SymbolView>>
    decreases items.len(),
{
    if items.len() == 0 {
        Some(Seq::empty())
    } else {
        match (symbols_of(items.drop_last()), symbol_of(items.last())) {
            (Some(rest), Some(last)) => Some(rest.push(last)),
            _ => None,
        }
    }
}

pub open spec fn symbols_setting(value: JsonView, name: Seq<char>, place: int) -> Option<
    Seq<SymbolView>,
> {
    match value.part(name, place) {
        None => Some(Seq::empty()),
        Some(JsonView::List(items)) => symbols_of(items),
        _ => None,
    }
}

pub open spec fn auto_setting(value: JsonView) -> Option<AutoView> {
    match value.part("autoSymbols"@, 8) {
        None => Some(fixed_symbols()),
        Some(found) => match (
            found.text_part("underlying"@, 0),
            found.text_part("leverage"@, 1),
            found.text_part("inverse"@, 2),
        ) {
            (Some(underlying), Some(leverage), Some(inverse)) => if found.is_record(3) {
                Some(AutoView { underlying, leverage, inverse })
            } else {
                None
            },
            _ => None,
        },
    }
}

/// The settings that a record holds, where every part that is there is of its type.
pub open spec fn settings_of(value: JsonView) -> Option<SettingsView> {
    let config_version = number_setting(value, "configVersion"@, 0, 2);
    let app_key = text_setting(value, "appKey"@, 1, Seq::empty());
    let app_secret = text_setting(value, "appSecret"@, 2, Seq::empty());
    let cano = text_setting(value, "cano"@, 3, Seq::empty());
    let acnt_prdt_cd = text_setting(value, "acntPrdtCd"@, 4, "01"@);
    let hts_id = text_setting(value, "htsId"@, 5, Seq::empty());
    let confirmed = flag_setting(value, "realTradingConfirmed"@, 6, false);
    let openai_api_key = text_setting(value, "openaiApiKey"@, 7, Seq::empty());
    let auto_symbols = auto_setting(value);
    let theme = text_setting(value, "theme"@, 9, "default"@);
    let exchange = text_setting(value, "exchange"@, 10, "KRX"@);
    let trade_symbols = symbols_setting(value, "tradeSymbols"@, 11);
    let chart_symbols = symbols_setting(value, "chartSymbols"@, 12);
    let chart_interval = number_setting(value, "chartInterval"@, 13, 10);
    let opacity = opacity_setting(value);
    if value.is_record(15) && config_version is Some && app_key is Some && app_secret is Some
        && cano is Some && acnt_prdt_cd is Some && hts_id is Some && confirmed is Some
        && openai_api_key is Some && auto_symbols is Some && theme is Some && exchange is Some
        && trade_symbols is Some && chart_symbols is Some && chart_interval is Some
        && opacity is Some {
        Some(
            SettingsView {
                config_version: config_version->0,
                app_key: app_key->0,
                app_secret: app_secret->0,
                cano: cano->0,
                acnt_prdt_cd: acnt_prdt_cd->0,
                hts_id: hts_id->0,
                real_trading_confirmed: confirmed->0,
                openai_api_key: openai_api_key->0,
                auto_symbols: auto_symbols->0,
                theme: theme->0,
                exchange: exchange->0,
                trade_symbols: trade_symbols->0,
                chart_symbols: chart_symbols->0,
                chart_interval: chart_interval->0,
                opacity: opacity->0,
            },
        )
    } else {
        None
    }
}

fn read_text(value: &Json, name: &str, place: usize, default: String) -> (text: Option<String>)
    ensures
        match text {
            Some(t) => text_setting(value@, name@, place as int, default@) == Some(t@),
            None => text_setting(value@, name@, place as int, default@) is None,
        },
{
    match value.get_part(name, place) {
        None => Some(default),
        Some(found) => match found.as_str() {
            Some(text) => Some(text.to_owned()),
            None => None,
        },
    }
}

fn read_flag(value: &Json, name: &str, place: usize, default: bool) -> (flag: Option<bool>)
    ensures
        flag == flag_setting(value@, name@, place as int, default),
{
    match value.get_part(name, place) {
        None => Some(default),
        Some(Json::Bool(flag)) => Some(*flag),
        _ => None,
    }
}

fn read_number(value: &Json, name: &str, place: usize, default: u32) -> (number: Option<u32>)
    ensures
        number == number_setting(value@, name@, place as int, default),
{
    match value.get_part(name, place) {
        None => Some(default),
        Some(found) => match found.as_u64() {
            Some(n) => if n <= u32::MAX as u64 {
                Some(n as u32)
            } else {
                None
            },
            None => None,
        },
    }
}

fn read_opacity(value: &Json) -> (opacity: Option<i64>)
    ensures
        opacity == opacity_setting(value@),
{
    match value.get_part("opacity", 14) {
        None => Some(default_opacity()),
        Some(Json::Number(text)) => parse_billionths(text.as_str()),
        _ => None,
    }
}

fn read_symbol(value: &Json) -> (symbol: Option<SymbolConfig>)
    ensures
        match symbol {
            Some(s) => symbol_of(value@) == Some(s@),
            None => symbol_of(value@) is None,
        },
{
    match (
        value.get_text_part("code", 0),
        value.get_text_part("label", 1),
        read_flag(value, "etf", 2, default_true()),
    ) {
        (Some(code), Some(label), Some(etf)) => if value.has_parts(3) {
            Some(SymbolConfig { code: code.to_owned(), label: label.to_owned(), etf })
        } else {
            None
        },
        _ => None,
    }
}

fn read_symbols(value: &Json, name: &str, place: usize) -> (symbols: Option<Vec<SymbolConfig>>)
    ensures
        match symbols {
            Some(s) => symbols_setting(value@, name@, place as int) == Some(symbol_views(s@)),
            None => symbols_setting(value@, name@, place as int) is None,
        },
{
    match value.get_part(name, place) {
        None => {
            let symbols: Vec<SymbolConfig> = Vec::new();
            assert(symbol_views(symbols@) =~= Seq::empty());
            Some(symbols)
        },
        Some(Json::List(items)) => {
            proof {
                lemma_list_says(*items);
            }
            read_items(items)
        },
        _ => None,
    }
}

fn read_items(items: &Vec<Json>) -> (symbols: Option<Vec<SymbolConfig>>)
    ensures
        match symbols {
            Some(s) => symbols_of(rows(items@)) == Some(symbol_views(s@)),
            None => symbols_of(rows(items@)) is None,
        },
{
    let mut symbols: Option<Vec<SymbolConfig>> = Some(Vec::new());
    let mut i: usize = 0;
    assert(symbol_views(symbols->0@) =~= Seq::empty());
    assert(rows(items@).take(0) =~= Seq::empty());
    while i < items.len()
        invariant
            i <= items@.len(),
            match symbols {
                Some(s) => symbols_of(rows(items@).take(i as int)) == Some(symbol_views(s@)),
                None => symbols_of(rows(items@).take(i as int)) is None,
            },
        decreases items@.len() - i,
    {
        assert(rows(items@).take(i + 1).drop_last() =~= rows(items@).take(i as int));
        assert(rows(items@)[i as int] == items@[i as int]@);
        symbols = match (symbols, read_symbol(&items[i])) {
            (Some(mut known), Some(symbol)) => {
                let ghost before = symbol_views(known@);
                known.push(symbol);
                assert(symbol_views(known@) =~= before.push(symbol@));
                Some(known)
            },
            _ => None,
        };
        i += 1;
    }
    assert(rows(items@).take(i as int) =~= rows(items@));
    symbols
}

fn read_auto(value: &Json) -> (symbols: Option<AutoSymbols>)
    ensures
        match symbols {
            Some(s) => auto_setting(value@) == Some(s@),
            None => auto_setting(value@) is None,
        },
{
    match value.get_part("autoSymbols", 8) {
        None => Some(AutoSymbols::default()),
        Some(found) => match (
            found.get_text_part("underlying", 0),
            found.get_text_part("leverage", 1),
            found.get_text_part("inverse", 2),
        ) {
            (Some(underlying), Some(leverage), Some(inverse)) => if found.has_parts(3) {
                Some(
                    AutoSymbols {
                        underlying: underlying.to_owned(),
                        leverage: leverage.to_owned(),
                        inverse: inverse.to_owned(),
                    },
                )
            } else {
                None
            },
            _ => None,
        },
    }
}

/// Reads the settings that a record holds.
pub fn read_settings(value: &Json) -> (settings: Option<Settings>)
    ensures
        match settings {
            Some(s) => settings_of(value@) == Some(s@),
            None => settings_of(value@) is None,
        },
{
    if !value.has_parts(15) {
        return None;
    }
    let config_version = match read_number(value, "configVersion", 0, default_config_version()) {
        Some(n) => n,
        None => return None,
    };
    let app_key = match read_text(value, "appKey", 1, String::new()) {
        Some(text) => text,
        None => return None,
    };
    let app_secret = match read_text(value, "appSecret", 2, String::new()) {
        Some(text) => text,
        None => return None,
    };
    let cano = match read_text(value, "cano", 3, String::new()) {
        Some(text) => text,
        None => return None,
    };
    let acnt_prdt_cd = match read_text(value, "acntPrdtCd", 4, default_account_product_code()) {
        Some(text) => text,
        None => return None,
    };
    let hts_id = match read_text(value, "htsId", 5, String::new()) {
        Some(text) => text,
        None => return None,
    };
    let real_trading_confirmed = match read_flag(value, "realTradingConfirmed", 6, false) {
        Some(flag) => flag,
        None => return None,
    };
    let openai_api_key = match read_text(value, "openaiApiKey", 7, String::new()) {
        Some(text) => text,
        None => return None,
    };
    let auto_symbols = match read_auto(value) {
        Some(symbols) => symbols,
        None => return None,
    };
    let theme = match read_text(value, "theme", 9, default_theme()) {
        Some(text) => text,
        None => return None,
    };
    let exchange = match read_text(value, "exchange", 10, default_exchange()) {
        Some(text) => text,
        None => return None,
    };
    let trade_symbols = match read_symbols(value, "tradeSymbols", 11) {
        Some(symbols) => symbols,
        None => return None,
    };
    let chart_symbols = match read_symbols(value, "chartSymbols", 12) {
        Some(symbols) => symbols,
        None => return None,
    };
    let chart_interval = match read_number(value, "chartInterval", 13, default_chart_interval()) {
        Some(n) => n,
        None => return None,
    };
    let opacity = match read_opacity(value) {
        Some(opacity) => opacity,
        None => return None,
    };
    Some(
        Settings {
            config_version,
            app_key,
            app_secret,
            cano,
            acnt_prdt_cd,
            hts_id,
            real_trading_confirmed,
            openai_api_key,
            auto_symbols,
            theme,
            exchange,
            trade_symbols,
            chart_symbols,
            chart_interval,
            opacity,
        },
    )
}

/// Settings as they are taken over. Where they come from before versions were written, only those
/// that were used for real trading count as agreed to. Empty lists of symbols are filled, and
/// automation's codes are always the same.
pub open spec fn migrated(settings: SettingsView, versioned: bool, was_real: bool) -> SettingsView {
    SettingsView {
        real_trading_confirmed: if versioned {
            settings.real_trading_confirmed
        } else {
            was_real
        },
        config_version: if versioned {
            settings.config_version
        } else {
            2
        },
        trade_symbols: if settings.trade_symbols.len() == 0 {
            standard_trades()
        } else {
            settings.trade_symbols
        },
        chart_symbols: if settings.chart_symbols.len() == 0 {
            standard_charts()
        } else {
            settings.chart_symbols
        },
        auto_symbols: fixed_symbols(),
        ..settings
    }
}

/// Takes settings over.
pub fn migrate_settings(settings: Settings, versioned: bool, was_real: bool) -> (taken: Settings)
    ensures
        taken@ == migrated(settings@, versioned, was_real),
{
    let mut taken = settings;
    let defaults = Settings::default();
    if !versioned {
        taken.real_trading_confirmed = was_real;
        taken.config_version = default_config_version();
    }
    if taken.trade_symbols.len() == 0 {
        taken.trade_symbols = defaults.trade_symbols;
    }
    if taken.chart_symbols.len() == 0 {
        taken.chart_symbols = defaults.chart_symbols;
    }
    if !same_symbols(&taken.auto_symbols, &defaults.auto_symbols) {
        taken.auto_symbols = defaults.auto_symbols;
    }
    assert(taken@ =~= migrated(settings@, versioned, was_real));
    taken
}

/// Whether settings were written before versions were.
pub fn is_unversioned(value: &Json) -> (yes: bool)
    ensures
        yes == (value@.field("configVersion"@) is None),
{
    value.get("configVersion").is_none()
}

/// The settings of a file's value, taken over.
pub open spec fn migrated_file(value: JsonView) -> Option<SettingsView> {
    match settings_of(value) {
        Some(settings) => Some(
            migrated(
                settings,
                value.field("configVersion"@) is Some,
                value.text_field("mode"@) == Some("real"@),
            ),
        ),
        None => None,
    }
}

/// Takes the settings of a file's value over.
pub fn migrate_value(value: &Json) -> (settings: Option<Settings>)
    ensures
        match settings {
            Some(s) => migrated_file(value@) == Some(s@),
            None => migrated_file(value@) is None,
        },
{
    match read_settings(value) {
        Some(settings) => {
            let was_real = value.field_is("mode", "real");
            Some(migrate_settings(settings, !is_unversioned(value), was_real))
        },
        None => None,
    }
}

/// Why a file holds no settings.
#[derive(Debug, PartialEq, Eq)]
pub enum SettingsFault {
    /// It is no JSON, as the reader says.
    Unreadable(String),
    /// A part of a setting is missing, or one is of another type.
    Mistyped,
}

/// Reads a file's settings and takes them over.
pub fn migrate(raw: &str) -> (settings: Result<Settings, SettingsFault>)
    ensures
        match (settings, json_read(raw@)) {
            (Ok(s), Ok(value)) => migrated_file(value) == Some(s@),
            (Err(SettingsFault::Mistyped), Ok(value)) => migrated_file(value) is None,
            (Err(SettingsFault::Unreadable(told)), Err(message)) => told@ == message,
            _ => false,
        },
{
    let value = match read_json(raw) {
        Ok(value) => value,
        Err(message) => return Err(SettingsFault::Unreadable(message)),
    };
    match migrate_value(&value) {
        Some(settings) => Ok(settings),
        None => Err(SettingsFault::Mistyped),
    }
}

/// What settings are loaded from a file: its own where it holds some, else those by default. Says
/// also whether they are to be written back, which is where they had no version.
pub fn load(raw: Option<&str>) -> (loaded: (Settings, bool))
    ensures
        ({
            let found = match raw {
                Some(text) => match json_of(text@) {
                    Some(value) => migrated_file(value),
                    None => None,
                },
                None => None,
            };
            match found {
                Some(settings) => loaded.0@ == settings && loaded.1 == (json_of(
                    raw->0@,
                )->0.field("configVersion"@) is None),
                None => loaded.0@ == crate::settings::standard() && !loaded.1,
            }
        }),
{
    match raw {
        Some(text) => match read_json(text) {
            Ok(value) => match migrate_value(&value) {
                Some(settings) => (settings, is_unversioned(&value)),
                None => (Settings::default(), false),
            },
            Err(_) => (Settings::default(), false),
        },
        None => (Settings::default(), false),
    }
}

/// Whatever a file says, automation trades the same codes, and settings that were never used for
/// real trading do not connect to it.
pub proof fn migration_is_safe(settings: SettingsView, versioned: bool, was_real: bool)
    ensures
        migrated(settings, versioned, was_real).auto_symbols == fixed_symbols(),
        !versioned && !was_real ==> !migrated(settings, versioned, was_real).real_trading_confirmed,
        migrated(settings, versioned, was_real).trade_symbols.len() > 0,
        migrated(settings, versioned, was_real).chart_symbols.len() > 0,
        migrated(migrated(settings, versioned, was_real), true, was_real) == migrated(
            settings,
            versioned,
            was_real,
        ),
{
}

/// Settings are read under the names of their parts: one that is there counts, and one that is not has
/// its default.
pub proof fn settings_are_read_by_name(value: JsonView, text: Seq<char>, flag: bool)
    requires
        value is Object,
    ensures
        settings_of(value) matches Some(read) ==> {
            &&& value.text_field("appKey"@) == Some(text) ==> read.app_key == text
            &&& value.text_field("appSecret"@) == Some(text) ==> read.app_secret == text
            &&& value.text_field("cano"@) == Some(text) ==> read.cano == text
            &&& value.text_field("acntPrdtCd"@) == Some(text) ==> read.acnt_prdt_cd == text
            &&& value.text_field("htsId"@) == Some(text) ==> read.hts_id == text
            &&& value.text_field("openaiApiKey"@) == Some(text) ==> read.openai_api_key == text
            &&& value.text_field("theme"@) == Some(text) ==> read.theme == text
            &&& value.text_field("exchange"@) == Some(text) ==> read.exchange == text
            &&& value.field("realTradingConfirmed"@) == Some(JsonView::Bool(flag))
                ==> read.real_trading_confirmed == flag
            &&& value.field("realTradingConfirmed"@) is None ==> !read.real_trading_confirmed
            &&& value.field("cano"@) is None ==> read.cano.len() == 0
            &&& value.field("acntPrdtCd"@) is None ==> read.acnt_prdt_cd == "01"@
            &&& value.field("exchange"@) is None ==> read.exchange == "KRX"@
            &&& value.field("chartInterval"@) is None ==> read.chart_interval == 10
            &&& value.field("opacity"@) is None ==> read.opacity == 1_000_000_000
        },
        value.field("realTradingConfirmed"@) matches Some(v) ==> (v !is Bool ==> settings_of(value)
            is None),
        value.field("appKey"@) matches Some(v) ==> (v !is Text ==> settings_of(value) is None),
{
}

/// The codes of a list are read in their order, each by itself, and a list with one that cannot be
/// read is none.
pub proof fn symbols_are_read_in_order(items: Seq<JsonView>)
    ensures
        symbols_of(items) matches Some(read) ==> read.len() == items.len() && forall|i: int|
            0 <= i < items.len() ==> symbol_of(#[trigger] items[i]) == Some(read[i]),
        symbols_of(items) is None ==> exists|i: int|
            0 <= i < items.len() && symbol_of(#[trigger] items[i]) is None,
        forall|value: JsonView|
            value is Object ==> ((#[trigger] symbol_of(value)) matches Some(s) ==> value.text_field(
                "code"@,
            ) == Some(s.code) && value.text_field("label"@) == Some(s.label) && (value.field(
                "etf"@,
            ) is None ==> s.etf)),
    decreases items.len(),
{
    if items.len() > 0 {
        let front = items.drop_last();
        symbols_are_read_in_order(front);
        match symbols_of(items) {
            Some(read) => {
                let rest = symbols_of(front)->0;
                assert forall|i: int| 0 <= i < items.len() implies symbol_of(#[trigger] items[i])
                    == Some(read[i]) by {
                    if i < front.len() {
                        assert(front[i] == items[i]);
                        assert(read[i] == rest[i]);
                    }
                }
            },
            None => {
                if symbols_of(front) is None {
                    let i = choose|i: int|
                        0 <= i < front.len() && symbol_of(#[trigger] front[i]) is None;
                    assert(items[i] == front[i]);
                } else {
                    assert(symbol_of(items[items.len() - 1]) is None);
                }
            },
        }
    }
}

/// Taking settings over keeps the account, the keys and the lists that are there. Without a version,
/// real trading is confirmed exactly where it was on; automation's codes are always its own.
pub proof fn taken_over_settings_keep_the_account(
    settings: SettingsView,
    versioned: bool,
    was_real: bool,
)
    ensures
        ({
            let after = migrated(settings, versioned, was_real);
            &&& after.app_key == settings.app_key && after.app_secret == settings.app_secret
                && after.cano == settings.cano && after.acnt_prdt_cd == settings.acnt_prdt_cd
                && after.hts_id == settings.hts_id && after.openai_api_key
                == settings.openai_api_key
            &&& after.theme == settings.theme && after.exchange == settings.exchange
                && after.chart_interval == settings.chart_interval && after.opacity
                == settings.opacity
            &&& versioned ==> after.real_trading_confirmed == settings.real_trading_confirmed
                && after.config_version == settings.config_version
            &&& !versioned ==> after.real_trading_confirmed == was_real && after.config_version == 2
            &&& settings.trade_symbols.len() > 0 ==> after.trade_symbols == settings.trade_symbols
            &&& settings.chart_symbols.len() > 0 ==> after.chart_symbols == settings.chart_symbols
            &&& after.trade_symbols.len() > 0 && after.chart_symbols.len() > 0
            &&& after.auto_symbols.underlying == "000660"@ && after.auto_symbols.leverage
                == "0193T0"@ && after.auto_symbols.inverse == "0197X0"@
        }),
{
}

} // verus!
