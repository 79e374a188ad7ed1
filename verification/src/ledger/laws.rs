//! What entries in the book come to: each is kept as it was made, and touches nothing else.

use vstd::prelude::*;

use crate::clock::{on_calendar, parsed_date, written_date};
use crate::ledger::checks::{first_scenarios_fault, page_size, scenarios_fault, KeyView};
use crate::ledger::kinds::{
    LedgerControlMode, LedgerDecisionStatus, LedgerExecutionKind, LedgerMarketRegime,
    LedgerOrderStatus, LedgerOrderType, LedgerOrigin, LedgerProductKind, LedgerScenarioStatus,
    LedgerSessionStatus, LedgerSetupType, LedgerSide, LedgerTradeStatus,
};
use crate::ledger::model::{
    by_request, newest, of_order, open_orders_of, requested_in_order, same_fill, text_or_empty,
    wanted_decision, wanted_trade, LedgerView,
};
use crate::ledger::records::{
    AckView, DecisionQuery, DecisionSeed, DecisionView, FillSeed, FillView, IntentView, NoticeSeed,
    OrderRecord, OrderView, ScenarioSeedView, ScenarioView, SessionRecord, SessionSeed,
    StoredDecision, TradeQuery, TradeRecord, TradeSeed, TradeView, UpdateView,
};
use crate::seqs::{filter_mapped_is_of_images, lemma_first_where_bounds};
use crate::tables::{holds, keyed, place};
use crate::text::blank;

verus! {

/// Whether two books say the same of everything but sessions.
pub open spec fn same_but_sessions(a: LedgerView, b: LedgerView) -> bool {
    &&& a.decisions == b.decisions && a.scenarios == b.scenarios && a.orders == b.orders
    &&& a.fills == b.fills && a.notices == b.notices && a.trades == b.trades && a.state == b.state
}

/// A session begins active under the next number, behind all others, and ends once its end is told;
/// no other session and no other record changes.
pub proof fn session_begins_and_ends(
    book: LedgerView,
    session: SessionSeed,
    session_id: Seq<char>,
    status: LedgerSessionStatus,
    at: i64,
    k: int,
)
    requires
        0 <= k < book.sessions.len(),
        holds::<SessionRecord>(book.sessions, session_id),
    ensures
        ({
            let after = book.started(session);
            let n = book.sessions.len() as int;
            &&& after.sessions.len() == n + 1
            &&& after.sessions[k] == book.sessions[k]
            &&& after.sessions[n].session == session
            &&& after.sessions[n].id == book.ids.session
            &&& after.sessions[n].status == LedgerSessionStatus::Active
            &&& after.sessions[n].ended_at is None
            &&& same_but_sessions(after, book)
        }),
        ({
            let after = book.ended(session_id, status, at);
            let s = book.sessions[k];
            let t = after.sessions[k];
            &&& after.sessions.len() == book.sessions.len()
            &&& t.id == s.id && t.session == s.session
            &&& s.session.session_id != session_id ==> t == s
            &&& k == place::<SessionRecord>(book.sessions, session_id) ==> t.status == status
                && t.ended_at == Some(at)
            &&& same_but_sessions(after, book)
        }),
        book.end_fault(session_id, status) is None <==> status != LedgerSessionStatus::Active,
        !holds::<SessionRecord>(book.sessions, session.session_id) && !blank(session.session_id) && (
        session.starting_cash is Some ==> session.starting_cash->0 <= i64::MAX) && book.ids.session
            < i64::MAX ==> book.start_fault(session) is None,
        blank(session.session_id) || holds::<SessionRecord>(book.sessions, session.session_id)
            ==> book.start_fault(session) is Some,
{
    let p = keyed::<SessionRecord>(session_id);
    lemma_first_where_bounds(book.sessions, p);
    let i = place::<SessionRecord>(book.sessions, session_id);
    assert(p(book.sessions[i]));
}

/// A reset interrupts the sessions that are active and the trades that are open in them, with the
/// reset as the reason where there was none; sessions and trades that were over stay as they were.
pub proof fn reset_interrupts_what_is_active(
    book: LedgerView,
    at: i64,
    mode_json: Seq<char>,
    i: int,
    k: int,
)
    requires
        0 <= i < book.sessions.len(),
        0 <= k < book.trades.len(),
    ensures
        ({
            let after = book.reset(at, mode_json);
            let s = book.sessions[i];
            let t = book.trades[k];
            &&& s.status == LedgerSessionStatus::Active ==> after.sessions[i].status
                == LedgerSessionStatus::Interrupted && after.sessions[i].ended_at == Some(at)
                && after.sessions[i].session == s.session
            &&& s.status != LedgerSessionStatus::Active ==> after.sessions[i] == s
            &&& t.status != LedgerTradeStatus::Open || !book.in_active_session(t)
                ==> after.trades[k] == t
            &&& t.status == LedgerTradeStatus::Open && book.in_active_session(t) ==> {
                &&& after.trades[k].status == LedgerTradeStatus::Interrupted
                &&& after.trades[k].updated_at == at
                &&& t.exit_reason is None ==> after.trades[k].exit_reason == Some("runtime_reset"@)
                &&& t.exit_reason is Some ==> after.trades[k].exit_reason == t.exit_reason
                &&& after.trades[k].entry_qty == t.entry_qty && after.trades[k].exit_qty
                    == t.exit_qty && after.trades[k].code == t.code
            }
            &&& after.state.len() == 1 && after.state[0].value_json == mode_json
        }),
{
}

/// A decision is recorded as it was made, behind all others, and its scenarios with it in their order,
/// each with what was seeded and nothing confirmed yet. What was recorded before stays.
pub proof fn decision_is_recorded_as_made(
    book: LedgerView,
    d: DecisionSeed,
    scenarios: Seq<ScenarioSeedView>,
    k: int,
)
    requires
        0 <= k < scenarios.len(),
        book.ids.scenario + scenarios.len() <= i64::MAX,
    ensures
        ({
            let after = book.decided(d, scenarios);
            let n = book.scenarios.len() as int;
            let s = after.scenarios[n + k];
            &&& after.decisions.len() == book.decisions.len() + 1
            &&& after.decisions.last().decision == d
            &&& after.decisions.last().id == book.ids.decision
            &&& after.decisions.drop_last() == book.decisions
            &&& after.scenarios.len() == n + scenarios.len()
            &&& after.scenarios.take(n) == book.scenarios
            &&& s.decision_id == d.decision_id
            &&& s.id == book.ids.scenario + k
            &&& s.product == scenarios[k].product
            &&& s.trigger_price == scenarios[k].trigger_price
            &&& s.reference_price == scenarios[k].reference_price
            &&& s.confirmation_price == scenarios[k].confirmation_price
            &&& s.invalidation_price == scenarios[k].invalidation_price
            &&& s.target_return_pct == scenarios[k].target_return_pct
            &&& s.status == scenarios[k].status
            &&& s.terminal_reason == scenarios[k].terminal_reason
            &&& s.reference_observed_at == scenarios[k].reference_observed_at
            &&& s.rationale_ko == scenarios[k].rationale_ko && s.setup_type
                == scenarios[k].setup_type
            &&& s.confirmation_started_at is None && s.confirmation_tick_count == 0
            &&& s.updated_at == d.created_at
            &&& after.orders == book.orders && after.fills == book.fills && after.trades
                == book.trades && after.sessions == book.sessions && after.state == book.state
        }),
{
    let after = book.decided(d, scenarios);
    assert(after.decisions.drop_last() =~= book.decisions);
    assert(after.scenarios.take(book.scenarios.len() as int) =~= book.scenarios);
}

/// An update reaches the scenario of its decision and product alone: it has the state, the count and
/// the times of the update, and keeps the reason it ended for where the update gives none. What the
/// scenario is of never changes.
pub proof fn update_reaches_its_scenario(
    s: ScenarioView,
    decision_id: Seq<char>,
    updates: Seq<UpdateView>,
    n: int,
)
    requires
        0 < n <= updates.len(),
    ensures
        ({
            let before = LedgerView::updated_by(s, decision_id, updates, n - 1);
            let after = LedgerView::updated_by(s, decision_id, updates, n);
            let u = updates[n - 1];
            &&& before.decision_id == s.decision_id && before.product == s.product
            &&& after.decision_id == s.decision_id && after.product == s.product && after.id
                == s.id
            &&& after.trigger_price == s.trigger_price && after.target_return_pct
                == s.target_return_pct
            &&& s.decision_id != decision_id || s.product != u.product ==> after == before
            &&& s.decision_id == decision_id && s.product == u.product ==> {
                &&& after.status == u.status
                &&& after.confirmation_started_at == u.confirmation_started_at
                &&& after.confirmation_tick_count == u.confirmation_tick_count
                &&& after.updated_at == u.updated_at
                &&& after.reference_observed_at == u.reference_observed_at
                &&& u.terminal_reason is Some ==> after.terminal_reason == u.terminal_reason
                &&& u.terminal_reason is None ==> after.terminal_reason == before.terminal_reason
            }
        }),
    decreases n,
{
    if n > 1 {
        update_reaches_its_scenario(s, decision_id, updates, n - 1);
    }
}

/// Updates go to the scenarios one after the other, and the state of the decision with them; no other
/// decision changes, and one without a new state does not either.
pub proof fn updates_go_together(
    book: LedgerView,
    decision_id: Seq<char>,
    status: Option<LedgerDecisionStatus>,
    error: Option<Seq<char>>,
    updates: Seq<UpdateView>,
    i: int,
    k: int,
)
    requires
        book.wf(),
        holds::<StoredDecision>(book.decisions, decision_id),
        0 <= i < book.scenarios.len(),
        0 <= k < book.decisions.len(),
    ensures
        ({
            let after = book.updated(decision_id, status, error, updates);
            let d = book.decisions[k];
            let e = after.decisions[k];
            &&& after.scenarios.len() == book.scenarios.len()
            &&& after.decisions.len() == book.decisions.len()
            &&& book.scenarios[i].decision_id != decision_id ==> after.scenarios[i]
                == book.scenarios[i]
            &&& after.scenarios[i] == LedgerView::updated_by(
                book.scenarios[i],
                decision_id,
                updates,
                updates.len() as int,
            )
            &&& status is None ==> after.decisions == book.decisions
            &&& d.decision.decision_id != decision_id ==> e == d
            &&& d.decision.decision_id == decision_id ==> (status matches Some(now) ==> {
                &&& e.decision.status == now
                &&& error is Some ==> e.decision.error == error
                &&& error is None ==> e.decision.error == d.decision.error
                &&& e.id == d.id && e.decision.decision_id == decision_id
                    && e.decision.expires_at == d.decision.expires_at
            })
            &&& after.orders == book.orders && after.fills == book.fills && after.trades
                == book.trades
        }),
{
    let p = keyed::<StoredDecision>(decision_id);
    lemma_first_where_bounds(book.decisions, p);
    let at = place::<StoredDecision>(book.decisions, decision_id);
    assert(p(book.decisions[at]));
    if book.decisions[k].decision.decision_id == decision_id {
        crate::tables::lemma_place::<StoredDecision>(book.decisions, decision_id, k);
    }
    lemma_others_untouched(book.scenarios[i], decision_id, updates, updates.len() as int);
}

proof fn lemma_others_untouched(
    s: ScenarioView,
    decision_id: Seq<char>,
    updates: Seq<UpdateView>,
    n: int,
)
    requires
        0 <= n <= updates.len(),
    ensures
        s.decision_id != decision_id ==> LedgerView::updated_by(s, decision_id, updates, n) == s,
    decreases n,
{
    if n > 0 {
        lemma_others_untouched(s, decision_id, updates, n - 1);
    }
}

/// A restart ends an armed decision: as expired where its time had come, and else as discarded; its
/// waiting scenarios end as expired or replaced with it, and nothing of a confirmation is left.
pub proof fn restart_ends_armed_decisions(book: LedgerView, at: i64, i: int, k: int)
    requires
        book.wf(),
        0 <= i < book.scenarios.len(),
        0 <= k < book.decisions.len(),
        book.scenarios[i].decision_id == book.decisions[k].decision.decision_id,
    ensures
        ({
            let after = book.restarted(at);
            let d = book.decisions[k];
            let e = after.decisions[k];
            let s = book.scenarios[i];
            let t = after.scenarios[i];
            let over = d.decision.expires_at <= at;
            let armed = d.decision.status == LedgerDecisionStatus::Armed;
            let waits = s.status == LedgerScenarioStatus::Armed || s.status
                == LedgerScenarioStatus::Confirming;
            &&& armed && over ==> e.decision.status == LedgerDecisionStatus::Expired
            &&& armed && !over ==> e.decision.status == LedgerDecisionStatus::Discarded
            &&& armed && d.decision.error is Some ==> e.decision.error == d.decision.error
            &&& armed && d.decision.error is None ==> e.decision.error is Some
            &&& !armed ==> e == d
            &&& armed && waits ==> {
                &&& over ==> t.status == LedgerScenarioStatus::Expired
                &&& !over ==> t.status == LedgerScenarioStatus::Replaced
                &&& t.confirmation_started_at is None && t.confirmation_tick_count == 0
                &&& t.terminal_reason is Some
                &&& t.updated_at == at
                &&& t.product == s.product && t.trigger_price == s.trigger_price
            }
            &&& !armed || !waits ==> t == s
            &&& after.sessions == book.sessions && after.state == book.state && after.ids
                == book.ids
        }),
{
    crate::tables::lemma_place::<StoredDecision>(
        book.decisions,
        book.scenarios[i].decision_id,
        k,
    );
}

/// An order is recorded before it is sent as it was intended, of the day on which it was asked for,
/// with nothing of the broker's yet; orders recorded before stay.
pub proof fn order_is_recorded_as_intended(book: LedgerView, intent: IntentView)
    ensures
        ({
            let after = book.intended(intent);
            let o = after.orders.last();
            &&& after.orders.drop_last() == book.orders
            &&& o.id == book.ids.order
            &&& o.intent_id == intent.intent_id && o.session_id == intent.session_id && o.trade_id
                == intent.trade_id && o.decision_id == intent.decision_id && o.scenario_product
                == intent.scenario_product
            &&& o.execution_kind == intent.execution_kind && o.origin == intent.origin && o.code
                == intent.code && o.side == intent.side && o.order_type == intent.order_type
            &&& o.qty == intent.qty && o.price == intent.price
            &&& o.status == LedgerOrderStatus::Intent
            &&& o.broker_order_id is None && o.broker_org_no is None && o.original_order_id is None
                && o.acknowledged_at is None && o.message is None
            &&& o.trading_date == written_date(intent.requested_at as int)
            &&& o.requested_at == intent.requested_at
            &&& after.decisions == book.decisions && after.fills == book.fills && after.trades
                == book.trades
        }),
{
    assert(book.intended(intent).orders.drop_last() =~= book.orders);
}

/// An order is recorded where it has a name that is new, at least one share, a day, and refers only to
/// what is there.
pub proof fn order_needs_a_name_and_shares(book: LedgerView, intent: IntentView)
    ensures
        book.intent_fault(intent) is None ==> !blank(intent.intent_id) && 0 < intent.qty
            <= i64::MAX && on_calendar(intent.requested_at as int) && !holds::<OrderRecord>(
            book.orders,
            intent.intent_id,
        ) && (intent.session_id is Some ==> holds::<SessionRecord>(
            book.sessions,
            intent.session_id->0,
        )) && (intent.decision_id is Some ==> holds::<StoredDecision>(
            book.decisions,
            intent.decision_id->0,
        )),
        !blank(intent.intent_id) && 0 < intent.qty <= i64::MAX && (intent.price is Some
            ==> intent.price->0 <= i64::MAX) && on_calendar(intent.requested_at as int)
            && book.ids.order < i64::MAX && !holds::<OrderRecord>(book.orders, intent.intent_id) && (
        intent.session_id is Some ==> holds::<SessionRecord>(book.sessions, intent.session_id->0))
            && (intent.decision_id is Some ==> holds::<StoredDecision>(
            book.decisions,
            intent.decision_id->0,
        )) ==> book.intent_fault(intent) is None,
{
}

/// The broker's reply and a change of state reach the order of their intent alone. A reply keeps what
/// was known where it says nothing new, and never changes what the order is.
pub proof fn reply_reaches_its_order(
    book: LedgerView,
    intent_id: Seq<char>,
    ack: AckView,
    status: LedgerOrderStatus,
    message: Option<Seq<char>>,
    at: i64,
    k: int,
)
    requires
        book.wf(),
        holds::<OrderRecord>(book.orders, intent_id),
        0 <= k < book.orders.len(),
    ensures
        ({
            let o = book.orders[k];
            let p = book.acknowledged(intent_id, ack).orders[k];
            let q = book.with_status(intent_id, status, message, at).orders[k];
            &&& o.intent_id != intent_id ==> p == o && q == o
            &&& o.intent_id == intent_id ==> {
                &&& p.status == ack.status && p.acknowledged_at == Some(ack.acknowledged_at)
                    && p.updated_at == ack.acknowledged_at
                &&& ack.broker_order_id is Some ==> p.broker_order_id == ack.broker_order_id
                &&& ack.broker_order_id is None ==> p.broker_order_id == o.broker_order_id
                &&& ack.broker_org_no is Some ==> p.broker_org_no == ack.broker_org_no
                &&& ack.broker_org_no is None ==> p.broker_org_no == o.broker_org_no
                &&& ack.original_order_id is Some ==> p.original_order_id == ack.original_order_id
                &&& ack.original_order_id is None ==> p.original_order_id == o.original_order_id
                &&& ack.message is Some ==> p.message == ack.message
                &&& ack.message is None ==> p.message == o.message
                &&& p.qty == o.qty && p.price == o.price && p.code == o.code && p.side == o.side
                    && p.trading_date == o.trading_date && p.requested_at == o.requested_at
                &&& q.status == status && q.updated_at == at
                &&& message is Some ==> q.message == message
                &&& message is None ==> q.message == o.message
                &&& q.broker_order_id == o.broker_order_id && q.broker_org_no == o.broker_org_no
                    && q.qty == o.qty && q.code == o.code && q.side == o.side
            }
        }),
        book.acknowledged(intent_id, ack).fills == book.fills,
        book.with_status(intent_id, status, message, at).fills == book.fills,
        book.acknowledged(intent_id, ack).orders.len() == book.orders.len(),
        book.with_status(intent_id, status, message, at).orders.len() == book.orders.len(),
{
    let p = keyed::<OrderRecord>(intent_id);
    lemma_first_where_bounds(book.orders, p);
    let i = place::<OrderRecord>(book.orders, intent_id);
    assert(p(book.orders[i]));
    if book.orders[k].intent_id == intent_id {
        crate::tables::lemma_place::<OrderRecord>(book.orders, intent_id, k);
    }
}

/// The orders of a day that may still trade are the real ones of that day that were or may have been
/// sent and are not settled, and all of those.
pub proof fn open_orders_may_still_trade(orders: Seq<OrderView>, trading_date: Seq<char>, o: OrderView)
    ensures
        open_orders_of(orders, trading_date).contains(o) <==> orders.contains(o) && o.trading_date
            == trading_date && o.execution_kind == LedgerExecutionKind::Real && (o.status
            == LedgerOrderStatus::Dispatching || o.status == LedgerOrderStatus::Submitted
            || o.status == LedgerOrderStatus::PartiallyFilled || o.status
            == LedgerOrderStatus::CancelPending || o.status == LedgerOrderStatus::Unknown),
        by_request(orders).contains(o) <==> orders.contains(o),
        requested_in_order(by_request(orders)),
{
    let f = crate::ledger::model::open_order(trading_date);
    let kept = open_orders_of(orders, trading_date);
    filter_mapped_is_of_images(orders, f);
    crate::ledger::model::by_request_orders(orders);
    broadcast use vstd::seq_lib::group_to_multiset_ensures;

    assert(by_request(orders).contains(o) <==> by_request(orders).to_multiset().count(o) > 0);
    assert(orders.contains(o) <==> orders.to_multiset().count(o) > 0);
    if kept.contains(o) {
        let i = choose|i: int| 0 <= i < kept.len() && kept[i] == o;
        let j = choose|j: int| 0 <= j < orders.len() && f(#[trigger] orders[j]) == Some(kept[i]);
        assert(orders[j] == o);
    }
    if orders.contains(o) && LedgerView::is_unresolved(o, trading_date) {
        let j = choose|j: int| 0 <= j < orders.len() && orders[j] == o;
        assert(f(orders[j]) == Some(o));
    }
}

/// A key names an automatic order by its day, its number and who keeps it.
pub proof fn key_names_an_automatic_order(o: OrderView, key: KeyView)
    ensures
        LedgerView::is_auto_order(o, key) <==> o.origin == LedgerOrigin::Auto && o.trading_date
            == key.trading_date && o.broker_order_id == Some(key.order_no) && (
        o.broker_org_no matches Some(org) ==> org == key.org_no) && (o.broker_org_no is None
            ==> key.org_no.len() == 0),
{
    if o.broker_org_no is None && key.org_no.len() == 0 {
        assert(key.org_no =~= Seq::empty());
    }
}

/// A new fill is booked as it was told, behind all others, under the order of its key; it adds what
/// its shares came to to that order's value, and to no other's.
pub proof fn fill_is_booked_as_told(book: LedgerView, key: KeyView, fill: FillSeed, other: KeyView)
    requires
        book.fill_is_new(key, fill),
    ensures
        ({
            let after = book.filled(key, fill);
            let f = after.fills.last();
            &&& after.fills.drop_last() == book.fills
            &&& f.fill == fill
            &&& f.trading_date == key.trading_date && f.order_no == key.order_no
            &&& key.org_no.len() > 0 ==> f.broker_org_no == key.org_no
            &&& f.id == book.ids.fill
            &&& after.orders == book.orders && after.trades == book.trades
            &&& LedgerView::filled_value(after.fills, other) == LedgerView::filled_value(
                book.fills,
                other,
            ) + if other.trading_date == f.trading_date && other.org_no == f.broker_org_no
                && other.order_no == f.order_no {
                fill.qty * fill.price
            } else {
                0
            }
            &&& LedgerView::filled_qty(after.fills, other) == LedgerView::filled_qty(
                book.fills,
                other,
            ) + if other.trading_date == f.trading_date && other.org_no == f.broker_org_no
                && other.order_no == f.order_no {
                fill.qty as int
            } else {
                0
            }
        }),
{
    assert(book.filled(key, fill).fills.drop_last() =~= book.fills);
}

/// Two fills are one where they are of the same order and have the same key, or the same number of the
/// broker's.
pub proof fn fills_are_told_apart(
    f: FillView,
    trading_date: Seq<char>,
    org_no: Seq<char>,
    order_no: Seq<char>,
    fill: FillSeed,
)
    ensures
        f.order_no != order_no || f.trading_date != trading_date || f.broker_org_no != org_no
            ==> !same_fill(f, trading_date, org_no, order_no, fill),
        f.order_no == order_no && f.trading_date == trading_date && f.broker_org_no == org_no ==> {
            &&& f.fill.fill_key == fill.fill_key ==> same_fill(
                f,
                trading_date,
                org_no,
                order_no,
                fill,
            )
            &&& f.fill.fill_key != fill.fill_key && (f.fill.broker_fill_id is None
                || fill.broker_fill_id is None) ==> !same_fill(
                f,
                trading_date,
                org_no,
                order_no,
                fill,
            )
            &&& f.fill.broker_fill_id is Some && f.fill.broker_fill_id == fill.broker_fill_id
                ==> same_fill(f, trading_date, org_no, order_no, fill)
        },
{
}

/// A fill without its keeper is booked under that of its own order, where that is known; under none
/// where no order has its number; and is refused where orders of several keepers have it.
pub proof fn keeper_is_that_of_the_order(
    book: LedgerView,
    trading_date: Seq<char>,
    order_no: Seq<char>,
    i: int,
    j: int,
)
    requires
        0 <= i < book.orders.len(),
        0 <= j < book.orders.len(),
        book.orders[i].trading_date == trading_date,
        book.orders[i].broker_order_id == Some(order_no),
        book.orders[j].trading_date == trading_date,
        book.orders[j].broker_order_id == Some(order_no),
    ensures
        text_or_empty(book.orders[i].broker_org_no) != text_or_empty(book.orders[j].broker_org_no)
            ==> book.org_of(trading_date, order_no, None) is None,
        book.org_of(trading_date, order_no, None) matches Some(org) ==> org == text_or_empty(
            book.orders[i].broker_org_no,
        ),
{
    let p = crate::ledger::model::numbered(trading_date, order_no);
    lemma_first_where_bounds(book.orders, p);
    assert(p(book.orders[i]));
    assert(p(book.orders[j]));
}

/// A trade is recorded as it stands: a known one in its place and under its number, a new one behind
/// all others under the next; no other trade changes.
pub proof fn trade_is_recorded_as_it_stands(book: LedgerView, t: TradeSeed, k: int)
    requires
        book.wf(),
        0 <= k < book.trades.len(),
    ensures
        ({
            let after = book.traded(t);
            let known = holds::<TradeRecord>(book.trades, t.trade_id);
            let row = if known {
                after.trades[place::<TradeRecord>(book.trades, t.trade_id)]
            } else {
                after.trades.last()
            };
            &&& book.trades[k].trade_id != t.trade_id ==> after.trades[k] == book.trades[k]
            &&& after.trades[k].id == book.trades[k].id
            &&& known ==> after.trades.len() == book.trades.len()
            &&& !known ==> after.trades.len() == book.trades.len() + 1 && row.id == book.ids.trade
            &&& row.trade_id == t.trade_id && row.session_id == t.session_id
            &&& row.entry_qty == t.entry_qty && row.exit_qty == t.exit_qty
            &&& row.entry_avg_price == t.entry_avg_price && row.exit_avg_price == t.exit_avg_price
            &&& row.pnl_rate == t.pnl_rate && row.status == t.status && row.exit_reason
                == t.exit_reason
            &&& row.entered_at == t.entered_at && row.exited_at == t.exited_at && row.code == t.code
            &&& row.execution_kind == t.execution_kind && row.origin == t.origin && row.updated_at
                == t.updated_at
        }),
{
    let p = keyed::<TradeRecord>(t.trade_id);
    lemma_first_where_bounds(book.trades, p);
    let i = place::<TradeRecord>(book.trades, t.trade_id);
    if i < book.trades.len() {
        assert(p(book.trades[i]));
    }
}

/// A trade is recorded where it has a name, sells no more than it bought, and is of a session that is
/// there.
pub proof fn trade_sells_no_more_than_it_bought(book: LedgerView, t: TradeSeed)
    ensures
        book.trade_fault(t) is None <==> !blank(t.trade_id) && t.exit_qty <= t.entry_qty
            <= i64::MAX && book.ids.trade < i64::MAX && (t.session_id is Some ==> holds::<
            SessionRecord,
        >(book.sessions, t.session_id->0)),
{
}

/// A notice is kept where it has a number that is new, an order, a code, shares and a price.
pub proof fn notice_needs_shares_and_a_price(book: LedgerView, n: NoticeSeed)
    ensures
        book.notice_fault(n) is None ==> !blank(n.notice_id) && !blank(n.broker_order_id) && !blank(
            n.code,
        ) && 0 < n.qty && (n.price matches Some(price) && price > 0),
        book.noticed(n).notices.last().notice == n,
        book.noticed(n).notices.drop_last() == book.notices,
        book.noticed(n).fills == book.fills,
        book.noticed(n).notices.last().trading_date == written_date(n.notified_at as int),
{
    assert(book.noticed(n).notices.drop_last() =~= book.notices);
}

/// What is listed is what is wanted, the last first: rows of a longer book come before those of the
/// shorter one.
pub proof fn newest_come_first<V>(a: Seq<V>, b: Seq<V>, keep: spec_fn(V) -> bool, row: V)
    ensures
        newest(a + b, keep) == newest(b, keep) + newest(a, keep),
        keep(row) ==> newest(seq![row], keep) == seq![row],
        !keep(row) ==> newest(seq![row], keep).len() == 0,
    decreases b.len(),
{
    assert(seq![row].drop_last() =~= Seq::empty());
    assert(newest(Seq::<V>::empty(), keep) =~= Seq::empty());
    if keep(row) {
        assert(newest(seq![row], keep) =~= seq![row]);
    }
    if b.len() == 0 {
        assert(a + b =~= a);
        assert(newest(a + b, keep) =~= newest(b, keep) + newest(a, keep));
    } else {
        newest_come_first(a, b.drop_last(), keep, row);
        assert((a + b).drop_last() =~= a + b.drop_last());
        assert(newest(a + b, keep) =~= newest(b, keep) + newest(a, keep));
    }
}

/// A query wants the trades, and the decisions, that are all it names and come before its cursor.
pub proof fn query_wants_what_it_names(
    trades: TradeQuery,
    decisions: DecisionQuery,
    cursor: i64,
    t: TradeView,
    d: DecisionView,
)
    ensures
        wanted_trade(trades, Some(cursor))(t) <==> t.id < cursor && (trades.execution_kind is Some
            ==> trades.execution_kind == Some(t.execution_kind)) && (trades.origin is Some
            ==> trades.origin == Some(t.origin)) && (trades.status is Some ==> trades.status
            == Some(t.status)),
        wanted_decision(decisions, Some(cursor))(d) <==> d.id < cursor && (
        decisions.control_mode is Some ==> decisions.control_mode == Some(d.decision.control_mode))
            && (decisions.status is Some ==> decisions.status == Some(d.decision.status)),
        t.id < i64::MAX ==> (wanted_trade(trades, None)(t) <==> wanted_trade(
            trades,
            Some(i64::MAX),
        )(t)),
{
}

/// A page has the rows that are asked for, fifty where none is said and two hundred at most.
pub proof fn pages_are_bounded(limit: usize)
    ensures
        1 <= page_size(limit) <= 200,
        1 <= limit <= 200 ==> page_size(limit) == limit,
        limit == 0 ==> page_size(limit) == 50,
        limit > 200 ==> page_size(limit) == 200,
{
}

/// Scenarios are recorded where there are two at most, of different products, with a trigger and with
/// no price of zero.
pub proof fn scenarios_are_priced_and_differ(scenarios: Seq<ScenarioSeedView>, i: int, j: int)
    requires
        0 <= i < j < scenarios.len(),
    ensures
        scenarios_fault(scenarios) is None ==> {
            &&& scenarios.len() <= 2
            &&& scenarios[i].trigger_price > 0 && scenarios[j].trigger_price > 0
            &&& scenarios[i].product != scenarios[j].product
            &&& scenarios[j].reference_price != Some(0u64)
            &&& scenarios[j].confirmation_price != Some(0u64)
            &&& scenarios[j].invalidation_price != Some(0u64)
        },
{
    if scenarios_fault(scenarios) is None {
        assert(scenarios.len() == 2);
        assert(first_scenarios_fault(scenarios, 1) is None);
        assert(first_scenarios_fault(scenarios, 2) is None);
        assert(scenarios[0].product == scenarios[i].product);
    }
}

/// The key of an order has a number and a day that is one.
pub proof fn key_has_a_number_and_a_day(key: KeyView)
    ensures
        key.fault() is None <==> !blank(key.order_no) && parsed_date(key.trading_date) is Some,
{
}

/// A fill belongs to an order by its day, its keeper and its number.
pub proof fn fill_belongs_to_its_order(f: FillView, key: KeyView)
    ensures
        of_order(f, key) <==> f.trading_date == key.trading_date && f.broker_org_no == key.org_no
            && f.order_no == key.order_no,
{
}

/// The words under which the book keeps each kind of thing. A book that was written keeps its meaning
/// only while they stay.
pub proof fn kinds_are_stored_under_their_words()
    ensures
        LedgerControlMode::Manual.stored() == "manual"@,
        LedgerControlMode::Auto.stored() == "auto"@,
        LedgerControlMode::Shadow.stored() == "shadow"@,
        LedgerExecutionKind::Real.stored() == "real"@,
        LedgerExecutionKind::Shadow.stored() == "shadow"@,
        LedgerProductKind::Leverage.stored() == "leverage"@,
        LedgerProductKind::Inverse.stored() == "inverse"@,
        LedgerMarketRegime::Uptrend.stored() == "uptrend"@,
        LedgerMarketRegime::Downtrend.stored() == "downtrend"@,
        LedgerMarketRegime::Range.stored() == "range"@,
        LedgerMarketRegime::Transition.stored() == "transition"@,
        LedgerMarketRegime::Unclear.stored() == "unclear"@,
        LedgerSetupType::Continuation.stored() == "continuation"@,
        LedgerSetupType::Reversal.stored() == "reversal"@,
        LedgerOrigin::Manual.stored() == "manual"@,
        LedgerOrigin::Auto.stored() == "auto"@,
        LedgerOrigin::Shadow.stored() == "shadow"@,
        LedgerOrigin::AutoHandoff.stored() == "auto_handoff"@,
        LedgerOrigin::External.stored() == "external"@,
        LedgerSide::Buy.stored() == "buy"@,
        LedgerSide::Sell.stored() == "sell"@,
        LedgerSessionStatus::Active.stored() == "active"@,
        LedgerSessionStatus::Closed.stored() == "closed"@,
        LedgerSessionStatus::Interrupted.stored() == "interrupted"@,
        LedgerDecisionStatus::Armed.stored() == "armed"@,
        LedgerDecisionStatus::Skipped.stored() == "skipped"@,
        LedgerDecisionStatus::Triggered.stored() == "triggered"@,
        LedgerDecisionStatus::Expired.stored() == "expired"@,
        LedgerDecisionStatus::Replaced.stored() == "replaced"@,
        LedgerDecisionStatus::Missed.stored() == "missed"@,
        LedgerDecisionStatus::Invalidated.stored() == "invalidated"@,
        LedgerDecisionStatus::Invalid.stored() == "invalid"@,
        LedgerDecisionStatus::Error.stored() == "error"@,
        LedgerDecisionStatus::Discarded.stored() == "discarded"@,
        LedgerScenarioStatus::Armed.stored() == "armed"@,
        LedgerScenarioStatus::Confirming.stored() == "confirming"@,
        LedgerScenarioStatus::Triggered.stored() == "triggered"@,
        LedgerScenarioStatus::Expired.stored() == "expired"@,
        LedgerScenarioStatus::Replaced.stored() == "replaced"@,
        LedgerScenarioStatus::CancelledByOco.stored() == "cancelled_by_oco"@,
        LedgerScenarioStatus::Missed.stored() == "missed"@,
        LedgerScenarioStatus::Invalidated.stored() == "invalidated"@,
        LedgerScenarioStatus::Invalid.stored() == "invalid"@,
        LedgerOrderType::Market.stored() == "market"@,
        LedgerOrderType::Limit.stored() == "limit"@,
        LedgerOrderType::IocLimit.stored() == "ioc_limit"@,
        LedgerOrderType::Cancel.stored() == "cancel"@,
        LedgerOrderType::Virtual.stored() == "virtual"@,
        LedgerOrderStatus::Intent.stored() == "intent"@,
        LedgerOrderStatus::Dispatching.stored() == "dispatching"@,
        LedgerOrderStatus::Submitted.stored() == "submitted"@,
        LedgerOrderStatus::PartiallyFilled.stored() == "partially_filled"@,
        LedgerOrderStatus::Filled.stored() == "filled"@,
        LedgerOrderStatus::CancelPending.stored() == "cancel_pending"@,
        LedgerOrderStatus::Cancelled.stored() == "cancelled"@,
        LedgerOrderStatus::Rejected.stored() == "rejected"@,
        LedgerOrderStatus::Unknown.stored() == "unknown"@,
        LedgerTradeStatus::Open.stored() == "open"@,
        LedgerTradeStatus::Closed.stored() == "closed"@,
        LedgerTradeStatus::HandedOff.stored() == "handed_off"@,
        LedgerTradeStatus::Interrupted.stored() == "interrupted"@,
{
}

} // verus!
