//! How stored tables of earlier versions become those of this one.

use vstd::prelude::*;

use crate::clock::{date_text, written_date};
use crate::ledger::checks::{LedgerError, LedgerFault, LedgerResult};
use crate::ledger::model::SCHEMA_VERSION;
use crate::text::{is_text, opt, same};

verus! {

/// What is done to the tables before columns are added.
#[derive(Debug, Clone, Copy, PartialEq, Eq, Structural)]
pub enum TableStep {
    /// Make all tables.
    CreateAll,
    /// Give orders and fills the trading date and organisation that they are known by, and make the
    /// table of notices.
    ScopeOrders,
    /// Make the table of notices.
    AddNotices,
    /// The tables are there.
    Keep,
}

/// What a store needs.
#[derive(Debug, Clone, Copy, PartialEq, Eq, Structural)]
pub enum Migration {
    /// The store is of this version.
    UpToDate,
    /// The tables are brought up to date, and then columns are added.
    From(TableStep),
}

/// What a store of a version needs.
pub open spec fn migration_from(version: i64) -> Migration {
    if version == 5 {
        Migration::UpToDate
    } else if version == 0 {
        Migration::From(TableStep::CreateAll)
    } else if version == 1 {
        Migration::From(TableStep::ScopeOrders)
    } else if version == 2 {
        Migration::From(TableStep::AddNotices)
    } else {
        Migration::From(TableStep::Keep)
    }
}

/// What a store of a version needs. A later version than this one is not supported.
pub fn plan_migration(version: i64) -> (plan: LedgerResult<Migration>)
    ensures
        match plan {
            Ok(migration) => version <= 5 && migration == migration_from(version),
            Err(error) => version > 5 && error@ == LedgerFault::UnsupportedSchema(version),
        },
{
    if version > SCHEMA_VERSION {
        return Err(LedgerError::UnsupportedSchema(version));
    }
    Ok(
        if version == SCHEMA_VERSION {
            Migration::UpToDate
        } else if version == 0 {
            Migration::From(TableStep::CreateAll)
        } else if version == 1 {
            Migration::From(TableStep::ScopeOrders)
        } else if version == 2 {
            Migration::From(TableStep::AddNotices)
        } else {
            Migration::From(TableStep::Keep)
        },
    )
}

/// Which tables and columns a store has.
#[derive(Debug, Clone, Copy, PartialEq, Eq, Structural)]
pub struct Columns {
    pub has_llm_decisions: bool,
    pub has_cache_write_tokens: bool,
    pub has_market_regime: bool,
    pub has_decision_scenarios: bool,
    pub has_setup_type: bool,
}

/// Columns to be added.
#[derive(Debug, Clone, Copy, PartialEq, Eq, Structural)]
pub enum ColumnStep {
    CacheWriteTokens,
    DecisionMetadata,
    ScenarioMetadata,
}

/// The columns that a store lacks, in the order in which they are added.
pub open spec fn lacking(columns: Columns) -> Seq<ColumnStep> {
    (if columns.has_llm_decisions && !columns.has_cache_write_tokens {
        seq![ColumnStep::CacheWriteTokens]
    } else {
        Seq::empty()
    }) + (if columns.has_llm_decisions && !columns.has_market_regime {
        seq![ColumnStep::DecisionMetadata]
    } else {
        Seq::empty()
    }) + (if columns.has_decision_scenarios && !columns.has_setup_type {
        seq![ColumnStep::ScenarioMetadata]
    } else {
        Seq::empty()
    })
}

/// The columns that a store lacks.
pub fn plan_columns(columns: Columns) -> (steps: Vec<ColumnStep>)
    ensures
        steps@ == lacking(columns),
{
    let mut steps: Vec<ColumnStep> = Vec::new();
    if columns.has_llm_decisions && !columns.has_cache_write_tokens {
        steps.push(ColumnStep::CacheWriteTokens);
    }
    if columns.has_llm_decisions && !columns.has_market_regime {
        steps.push(ColumnStep::DecisionMetadata);
    }
    if columns.has_decision_scenarios && !columns.has_setup_type {
        steps.push(ColumnStep::ScenarioMetadata);
    }
    assert(steps@ =~= lacking(columns));
    steps
}

/// The columns of a store after one step.
pub open spec fn with_step(columns: Columns, step: ColumnStep) -> Columns {
    match step {
        ColumnStep::CacheWriteTokens => Columns { has_cache_write_tokens: true, ..columns },
        ColumnStep::DecisionMetadata => Columns { has_market_regime: true, ..columns },
        ColumnStep::ScenarioMetadata => Columns { has_setup_type: true, ..columns },
    }
}

/// The columns of a store after the first steps.
pub open spec fn with_steps(columns: Columns, steps: Seq<ColumnStep>) -> Columns
    decreases steps.len(),
{
    if steps.len() == 0 {
        columns
    } else {
        with_step(with_steps(columns, steps.drop_last()), steps.last())
    }
}

/// After the steps no column is lacking, so that a migration is done once.
pub proof fn steps_complete_the_columns(columns: Columns)
    ensures
        lacking(with_steps(columns, lacking(columns))).len() == 0,
{
    reveal_with_fuel(with_steps, 4);
    let steps = lacking(columns);
    if steps.len() > 0 {
        let a = steps.drop_last();
        if a.len() > 0 {
            let b = a.drop_last();
            if b.len() > 0 {
                assert(b.drop_last().len() == 0);
            }
        }
    }
}

/// First second of the year 0.
pub const FIRST_STORED: i64 = -62_167_219_200;

/// Last second of the year 9999.
pub const LAST_STORED: i64 = 253_402_300_799;

/// The trading date of a time in a store: that of the first day that the clock counts where the
/// time is of no year of four digits.
pub open spec fn stored_date(at: i64) -> Seq<char> {
    if FIRST_STORED <= at <= LAST_STORED {
        written_date(at as int)
    } else {
        "19700101"@
    }
}

pub fn legacy_trading_date(at: i64) -> (date: String)
    ensures
        date@ == stored_date(at),
{
    if FIRST_STORED <= at && at <= LAST_STORED {
        match date_text(at) {
            Some(date) => date,
            None => "19700101".to_owned(),
        }
    } else {
        "19700101".to_owned()
    }
}

/// An order of the first version, with the trading date that it is given.
#[derive(Debug)]
pub struct LegacyOrder {
    pub intent_id: String,
    pub broker_order_id: Option<String>,
    pub broker_org_no: Option<String>,
    pub trading_date: String,
}

/// The organisation of a fill of the first version: that of its own order where that has one, else
/// the only one among the day's orders of its number, else none.
pub open spec fn legacy_org(
    orders: Seq<LegacyOrder>,
    intent_id: Option<Seq<char>>,
    order_no: Option<Seq<char>>,
    trading_date: Seq<char>,
) -> Seq<char> {
    let own = own_org(orders, intent_id, orders.len() as int);
    if own is Some {
        own->0
    } else {
        let found = only_org(orders, order_no, trading_date, orders.len() as int);
        match found {
            Orgs::One(org) => org,
            _ => Seq::empty(),
        }
    }
}

/// Organisations that were found.
pub enum Orgs {
    Unknown,
    One(Seq<char>),
    Several,
}

/// The organisation of the order of an intent, among the first orders.
pub open spec fn own_org(orders: Seq<LegacyOrder>, intent_id: Option<Seq<char>>, n: int) -> Option<
    Seq<char>,
>
    decreases n,
{
    if n <= 0 {
        None
    } else {
        let before = own_org(orders, intent_id, n - 1);
        if before is Some {
            before
        } else if intent_id == Some(orders[n - 1].intent_id@) {
            opt(orders[n - 1].broker_org_no)
        } else {
            None
        }
    }
}

/// The organisations of an order number of a day, among the first orders. An order without one
/// counts as having the empty one.
pub open spec fn only_org(
    orders: Seq<LegacyOrder>,
    order_no: Option<Seq<char>>,
    trading_date: Seq<char>,
    n: int,
) -> Orgs
    decreases n,
{
    if n <= 0 {
        Orgs::Unknown
    } else {
        let before = only_org(orders, order_no, trading_date, n - 1);
        let o = orders[n - 1];
        let org = match o.broker_org_no {
            Some(org) => org@,
            None => Seq::empty(),
        };
        if order_no is Some && opt(o.broker_order_id) == order_no && o.trading_date@
            == trading_date {
            match before {
                Orgs::Unknown => Orgs::One(org),
                Orgs::One(known) => if known == org {
                    before
                } else {
                    Orgs::Several
                },
                Orgs::Several => before,
            }
        } else {
            before
        }
    }
}

/// The organisation of a fill of the first version.
pub fn legacy_fill_org(
    orders: &[LegacyOrder],
    intent_id: &Option<String>,
    order_no: &Option<String>,
    trading_date: &str,
) -> (org: String)
    ensures
        org@ == legacy_org(orders@, opt(*intent_id), opt(*order_no), trading_date@),
{
    let mut own: Option<String> = None;
    let mut known: Option<String> = None;
    let mut several = false;
    let mut i: usize = 0;
    while i < orders.len()
        invariant
            i <= orders@.len(),
            opt(own) == own_org(orders@, opt(*intent_id), i as int),
            ({
                let found = only_org(orders@, opt(*order_no), trading_date@, i as int);
                match found {
                    Orgs::Unknown => known is None && !several,
                    Orgs::One(org) => known is Some && known->0@ == org && !several,
                    Orgs::Several => several,
                }
            }),
        decreases orders@.len() - i,
    {
        let o = &orders[i];
        if own.is_none() && is_text(intent_id, o.intent_id.as_str()) {
            own = match &o.broker_org_no {
                Some(org) => Some(org.clone()),
                None => None,
            };
        }
        let of_number = match (&o.broker_order_id, order_no) {
            (Some(a), Some(b)) => same(a.as_str(), b.as_str()),
            _ => false,
        };
        if of_number && same(o.trading_date.as_str(), trading_date) {
            let org = match &o.broker_org_no {
                Some(org) => org.clone(),
                None => String::new(),
            };
            match &known {
                None => {
                    if !several {
                        known = Some(org);
                    }
                },
                Some(known) => {
                    if !same(known.as_str(), org.as_str()) {
                        several = true;
                    }
                },
            }
        }
        i += 1;
    }
    match own {
        Some(org) => org,
        None => match known {
            Some(org) => if several {
                String::new()
            } else {
                org
            },
            None => String::new(),
        },
    }
}

/// A fill of an old book gets the keeper of its own order where that is known, else the only one that
/// the day's orders of its number have, and none where they have several.
pub proof fn old_fill_gets_its_orders_keeper(
    orders: Seq<LegacyOrder>,
    intent_id: Option<Seq<char>>,
    order_no: Seq<char>,
    trading_date: Seq<char>,
    i: int,
    j: int,
)
    requires
        0 <= i < orders.len(),
        0 <= j < orders.len(),
    ensures
        intent_id == Some(orders[i].intent_id@) && orders[i].broker_org_no is Some && (forall|k: int|
            0 <= k < orders.len() && k != i ==> (#[trigger] orders[k]).intent_id@
                != orders[i].intent_id@) ==> legacy_org(
            orders,
            intent_id,
            Some(order_no),
            trading_date,
        ) == orders[i].broker_org_no->0@,
        (forall|k: int|
            0 <= k < orders.len() ==> intent_id != Some((#[trigger] orders[k]).intent_id@)) && opt(
            orders[i].broker_order_id,
        ) == Some(order_no) && orders[i].trading_date@ == trading_date && opt(
            orders[j].broker_order_id,
        ) == Some(order_no) && orders[j].trading_date@ == trading_date
            && orders[i].broker_org_no is Some && orders[j].broker_org_no is Some
            && orders[i].broker_org_no->0@ != orders[j].broker_org_no->0@ ==> legacy_org(
            orders,
            intent_id,
            Some(order_no),
            trading_date,
        ).len() == 0,
{
    let n = orders.len() as int;
    lemma_own_org(orders, intent_id, n, i);
    lemma_only_org(orders, order_no, trading_date, n, i);
    lemma_only_org(orders, order_no, trading_date, n, j);
}

proof fn lemma_own_org(orders: Seq<LegacyOrder>, intent_id: Option<Seq<char>>, n: int, i: int)
    requires
        0 <= n <= orders.len(),
        0 <= i < orders.len(),
    ensures
        i < n && intent_id == Some(orders[i].intent_id@) && orders[i].broker_org_no is Some && (
        forall|k: int|
            0 <= k < orders.len() && k != i ==> (#[trigger] orders[k]).intent_id@
                != orders[i].intent_id@) ==> own_org(orders, intent_id, n) == Some(
            orders[i].broker_org_no->0@,
        ),
        i >= n && intent_id == Some(orders[i].intent_id@) && (forall|k: int|
            0 <= k < orders.len() && k != i ==> (#[trigger] orders[k]).intent_id@
                != orders[i].intent_id@) ==> own_org(orders, intent_id, n) is None,
        (forall|k: int|
            0 <= k < orders.len() ==> intent_id != Some((#[trigger] orders[k]).intent_id@))
            ==> own_org(orders, intent_id, n) is None,
    decreases n,
{
    if n > 0 {
        lemma_own_org(orders, intent_id, n - 1, i);
        assert(orders[n - 1].intent_id@ == orders[n - 1].intent_id@);
    }
}

proof fn lemma_only_org(
    orders: Seq<LegacyOrder>,
    order_no: Seq<char>,
    trading_date: Seq<char>,
    n: int,
    i: int,
)
    requires
        0 <= n <= orders.len(),
        0 <= i < n,
    ensures
        opt(orders[i].broker_order_id) == Some(order_no) && orders[i].trading_date@ == trading_date
            && orders[i].broker_org_no is Some ==> (only_org(
            orders,
            Some(order_no),
            trading_date,
            n,
        ) == Orgs::One(orders[i].broker_org_no->0@) || only_org(
            orders,
            Some(order_no),
            trading_date,
            n,
        ) == Orgs::Several),
    decreases n,
{
    if i < n - 1 {
        lemma_only_org(orders, order_no, trading_date, n - 1, i);
    }
}

/// A store of an older version is brought forward from that version, and a present one stays.
pub proof fn versions_are_brought_forward(version: i64)
    ensures
        migration_from(5) is UpToDate,
        version != 5 ==> !(migration_from(version) is UpToDate),
        migration_from(0) == Migration::From(TableStep::CreateAll),
        migration_from(1) == Migration::From(TableStep::ScopeOrders),
        migration_from(2) == Migration::From(TableStep::AddNotices),
        version == 3 || version == 4 ==> migration_from(version) == Migration::From(
            TableStep::Keep,
        ),
{
}

} // verus!
