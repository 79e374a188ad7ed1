//! One-cancels-other trigger machine over the trades of the underlying share.
//!
//! The machine owns no socket, clock or order. The caller injects monotonic times and trade
//! sequence numbers, and hands a `TriggeredScenario` on to whatever places orders.

use vstd::prelude::*;

use crate::seqs::{
    filter_mapped, first_where, lemma_filter_mapped_step, lemma_first_where,
    lemma_first_where_bounds,
};
use crate::types::{
    ModelScenario, Nanos, ProductKind, ScenarioSetup, ScenarioStatus,
};
use crate::util::{
    band_tick, ceil_to, floor_to, lemma_ceil_to, lemma_floor_to, tick_size,
};

verus! {

/// Least time for which trades must hold beyond the trigger price.
pub const CONFIRMATION_DURATION: Nanos = 3_000_000_000;

/// Number of distinct trades that must have been seen before the one that confirms.
pub const REQUIRED_CONFIRMING_TICKS: u8 = 3;

pub const MIN_TARGET_RETURN_PCT: i64 = 200_000_000;

pub const MAX_TARGET_RETURN_PCT: i64 = 2_000_000_000;

pub const TARGET_RETURN_STEP_PCT: i64 = 100_000_000;

/// Why a decision is refused as a whole.
#[derive(Debug, Clone, Copy, PartialEq, Eq, Structural)]
pub enum DecisionValidationError {
    /// The share's price that the decision is measured against is not usable.
    InvalidSnapshotPrice,
    /// At most two scenarios are taken, whatever the schema let through.
    TooManyScenarios { count: usize },
    /// Two scenarios for one product leave open which is meant.
    DuplicateProduct(ProductKind),
}

/// Why a single scenario is left out.
#[derive(Debug, Clone, Copy, PartialEq, Eq, Structural)]
pub enum ScenarioInvalidReason {
    InvalidTriggerPrice,
    WrongDirection,
    InvalidTargetReturn,
}

/// A scenario that passed validation.
#[derive(Debug, PartialEq, Eq)]
pub struct ValidatedScenario {
    pub product: ProductKind,
    /// Aligned to the share's tick so that entry never gets easier than the model asked for.
    pub trigger_price: u64,
    /// Return on the ETF's fill price, in billionths of a percent: a whole number of steps.
    pub target_return_pct: i64,
    pub setup: Option<ScenarioSetup>,
}

/// A scenario that a valid decision goes without.
#[derive(Debug, PartialEq, Eq)]
pub struct RejectedScenario {
    pub product: ProductKind,
    pub trigger_price: u64,
    pub target_return_pct: Option<i64>,
    pub status: ScenarioStatus,
    pub reason: ScenarioInvalidReason,
}

/// Outcome of validation. No scenario means to stay out.
#[derive(Debug, PartialEq, Eq)]
pub struct ValidatedDecision {
    pub scenarios: Vec<ValidatedScenario>,
    pub rejected: Vec<RejectedScenario>,
}

impl Clone for ValidatedScenario {
    fn clone(&self) -> (copy: Self)
        ensures
            copy == *self,
    {
        ValidatedScenario {
            product: self.product,
            trigger_price: self.trigger_price,
            target_return_pct: self.target_return_pct,
            setup: match &self.setup {
                Some(setup) => Some(setup.clone()),
                None => None,
            },
        }
    }
}

/// The trigger price lies on the side of the snapshot price that the product bets on.
pub open spec fn directed(product: ProductKind, snapshot_price: u64, trigger_price: u64) -> bool {
    match product {
        ProductKind::Leverage => trigger_price > snapshot_price,
        ProductKind::Inverse => trigger_price < snapshot_price,
    }
}

/// Between 0.2 % and 2.0 %, and within a billionth of a percent of a tenth of a percent.
pub open spec fn target_return_ok(target: Option<i64>) -> bool {
    match target {
        Some(t) => {
            &&& MIN_TARGET_RETURN_PCT <= t <= MAX_TARGET_RETURN_PCT
            &&& exists|k: int| -1 <= t - #[trigger] (k * TARGET_RETURN_STEP_PCT) <= 1
        },
        None => false,
    }
}

/// The tenth of a percent nearest to `target`.
pub open spec fn rounded_target(target: i64) -> int {
    floor_to(target + TARGET_RETURN_STEP_PCT / 2, TARGET_RETURN_STEP_PCT as int)
}

/// The trigger price moved to the share's tick, away from the snapshot price.
pub open spec fn aligned_trigger(price: u64, product: ProductKind) -> int {
    match product {
        ProductKind::Leverage => ceil_to(price as int, band_tick(price as int)),
        ProductKind::Inverse => floor_to(price as int, band_tick(price as int)),
    }
}

/// Why `scenario` is left out of a decision taken at `snapshot_price`, if it is.
pub open spec fn rejection(snapshot_price: u64, scenario: ModelScenario) -> Option<
    ScenarioInvalidReason,
> {
    if scenario.trigger_price == 0 {
        Some(ScenarioInvalidReason::InvalidTriggerPrice)
    } else if !directed(scenario.product, snapshot_price, scenario.trigger_price) {
        Some(ScenarioInvalidReason::WrongDirection)
    } else if !target_return_ok(scenario.target_return_pct) {
        Some(ScenarioInvalidReason::InvalidTargetReturn)
    } else if aligned_trigger(scenario.trigger_price, scenario.product) > u64::MAX {
        Some(ScenarioInvalidReason::InvalidTriggerPrice)
    } else {
        None
    }
}

/// What validation makes of `scenario` where it keeps it.
pub open spec fn acceptance(snapshot_price: u64, scenario: ModelScenario) -> Option<
    ValidatedScenario,
> {
    if rejection(snapshot_price, scenario) is Some {
        None
    } else {
        Some(
            ValidatedScenario {
                product: scenario.product,
                trigger_price: aligned_trigger(scenario.trigger_price, scenario.product) as u64,
                target_return_pct: rounded_target(scenario.target_return_pct->0) as i64,
                setup: scenario.setup,
            },
        )
    }
}

/// What validation makes of `scenario` where it leaves it out.
pub open spec fn refusal(snapshot_price: u64, scenario: ModelScenario) -> Option<
    RejectedScenario,
> {
    match rejection(snapshot_price, scenario) {
        Some(reason) => Some(
            RejectedScenario {
                product: scenario.product,
                trigger_price: scenario.trigger_price,
                target_return_pct: scenario.target_return_pct,
                status: ScenarioStatus::Invalid,
                reason,
            },
        ),
        None => None,
    }
}

/// Why a decision of these scenarios is refused as a whole, if it is.
pub open spec fn decision_error(snapshot_price: u64, scenarios: Seq<ModelScenario>) -> Option<
    DecisionValidationError,
> {
    if snapshot_price == 0 {
        Some(DecisionValidationError::InvalidSnapshotPrice)
    } else if scenarios.len() > 2 {
        Some(DecisionValidationError::TooManyScenarios { count: scenarios.len() as usize })
    } else if scenarios.len() == 2 && scenarios[0].product == scenarios[1].product {
        Some(DecisionValidationError::DuplicateProduct(scenarios[1].product))
    } else {
        None
    }
}

/// Checks what a model decision means and aligns it to the share's tick.
///
/// A repeated product or a third scenario refuses the whole decision. A scenario whose direction
/// or target is wrong is left out, and the rest stands.
pub fn validate_decision(snapshot_price: u64, scenarios: &[ModelScenario]) -> (result: Result<
    ValidatedDecision,
    DecisionValidationError,
>)
    ensures
        match result {
            Ok(decision) => {
                &&& decision_error(snapshot_price, scenarios@) is None
                &&& decision.scenarios@ == filter_mapped(
                    scenarios@,
                    |s: ModelScenario| acceptance(snapshot_price, s),
                )
                &&& decision.rejected@ == filter_mapped(
                    scenarios@,
                    |s: ModelScenario| refusal(snapshot_price, s),
                )
            },
            Err(error) => decision_error(snapshot_price, scenarios@) == Some(error),
        },
{
    if snapshot_price == 0 {
        return Err(DecisionValidationError::InvalidSnapshotPrice);
    }
    if scenarios.len() > 2 {
        return Err(DecisionValidationError::TooManyScenarios { count: scenarios.len() });
    }
    if scenarios.len() == 2 && scenarios[0].product == scenarios[1].product {
        return Err(DecisionValidationError::DuplicateProduct(scenarios[1].product));
    }
    let ghost accept = |s: ModelScenario| acceptance(snapshot_price, s);
    let ghost refuse = |s: ModelScenario| refusal(snapshot_price, s);
    let mut kept: Vec<ValidatedScenario> = Vec::new();
    let mut rejected: Vec<RejectedScenario> = Vec::new();
    let mut i: usize = 0;
    while i < scenarios.len()
        invariant
            i <= scenarios@.len(),
            accept == (|s: ModelScenario| acceptance(snapshot_price, s)),
            refuse == (|s: ModelScenario| refusal(snapshot_price, s)),
            kept@ == filter_mapped(scenarios@.take(i as int), accept),
            rejected@ == filter_mapped(scenarios@.take(i as int), refuse),
        decreases scenarios@.len() - i,
    {
        let scenario = &scenarios[i];
        proof {
            lemma_filter_mapped_step(scenarios@, accept, i as int);
            lemma_filter_mapped_step(scenarios@, refuse, i as int);
        }
        match judge(snapshot_price, scenario) {
            Ok(valid) => {
                kept.push(valid);
            },
            Err(reason) => {
                rejected.push(
                    RejectedScenario {
                        product: scenario.product,
                        trigger_price: scenario.trigger_price,
                        target_return_pct: scenario.target_return_pct,
                        status: ScenarioStatus::Invalid,
                        reason,
                    },
                );
            },
        }
        i += 1;
    }
    assert(scenarios@.take(i as int) =~= scenarios@);
    Ok(ValidatedDecision { scenarios: kept, rejected })
}

fn judge(snapshot_price: u64, scenario: &ModelScenario) -> (result: Result<
    ValidatedScenario,
    ScenarioInvalidReason,
>)
    ensures
        match result {
            Ok(valid) => acceptance(snapshot_price, *scenario) == Some(valid),
            Err(reason) => rejection(snapshot_price, *scenario) == Some(reason),
        },
{
    if scenario.trigger_price == 0 {
        return Err(ScenarioInvalidReason::InvalidTriggerPrice);
    }
    if !has_correct_direction(scenario.product, snapshot_price, scenario.trigger_price) {
        return Err(ScenarioInvalidReason::WrongDirection);
    }
    if !is_valid_target_return(scenario.target_return_pct) {
        return Err(ScenarioInvalidReason::InvalidTargetReturn);
    }
    let target: i64 = match scenario.target_return_pct {
        Some(target) => target,
        None => 0,
    };
    match normalize_trigger_price(scenario.trigger_price, scenario.product) {
        None => Err(ScenarioInvalidReason::InvalidTriggerPrice),
        Some(trigger_price) => Ok(
            ValidatedScenario {
                product: scenario.product,
                trigger_price,
                target_return_pct: (target + TARGET_RETURN_STEP_PCT / 2) / TARGET_RETURN_STEP_PCT
                    * TARGET_RETURN_STEP_PCT,
                setup: match &scenario.setup {
                    Some(setup) => Some(setup.clone()),
                    None => None,
                },
            },
        ),
    }
}

/// Whether the trigger price lies on the side that the product bets on.
pub fn has_correct_direction(product: ProductKind, snapshot_price: u64, trigger_price: u64) -> (ok:
    bool)
    ensures
        ok == directed(product, snapshot_price, trigger_price),
{
    match product {
        ProductKind::Leverage => trigger_price > snapshot_price,
        ProductKind::Inverse => trigger_price < snapshot_price,
    }
}

/// Whether a target return is one that a scenario may ask for.
pub fn is_valid_target_return(target: Option<i64>) -> (ok: bool)
    ensures
        ok == target_return_ok(target),
{
    match target {
        None => false,
        Some(t) => {
            if t < MIN_TARGET_RETURN_PCT || t > MAX_TARGET_RETURN_PCT {
                return false;
            }
            let off: i64 = t % TARGET_RETURN_STEP_PCT;
            let near = off <= 1 || off == TARGET_RETURN_STEP_PCT - 1;
            proof {
                let step = TARGET_RETURN_STEP_PCT as int;
                let q = t as int / step;
                assert(t == q * step + off);
                if off <= 1 {
                    assert(-1 <= t - q * step <= 1);
                } else if off == step - 1 {
                    assert((q + 1) * step == q * step + step);
                    assert(-1 <= t - (q + 1) * step <= 1);
                } else {
                    assert forall|k: int| !(-1 <= t - #[trigger] (k * step) <= 1) by {
                        if k <= q {
                            assert(k * step <= q * step) by (nonlinear_arith)
                                requires
                                    k <= q,
                                    step == 100_000_000,
                            ;
                        } else {
                            assert(k * step >= q * step + step) by (nonlinear_arith)
                                requires
                                    k >= q + 1,
                                    step == 100_000_000,
                            ;
                        }
                    }
                }
            }
            near
        },
    }
}

/// Tick size of the underlying share.
pub fn underlying_tick_size(price: u64) -> (tick: u64)
    ensures
        tick == band_tick(price as int),
{
    tick_size(price, false)
}

/// Rounds an upward trigger up and a downward trigger down, so that entry never gets easier than
/// the model asked for. `None` where the rounded price does not fit.
pub fn normalize_trigger_price(price: u64, product: ProductKind) -> (aligned: Option<u64>)
    ensures
        match aligned {
            Some(p) => p == aligned_trigger(price, product),
            None => aligned_trigger(price, product) > u64::MAX,
        },
{
    let tick: u64 = underlying_tick_size(price);
    let remainder: u64 = price % tick;
    proof {
        lemma_ceil_to(price as int, tick as int);
        lemma_floor_to(price as int, tick as int);
    }
    match product {
        ProductKind::Leverage => {
            if remainder != 0 {
                price.checked_add(tick - remainder)
            } else {
                Some(price)
            }
        },
        ProductKind::Inverse => Some(price - remainder),
    }
}

/// One trade of the underlying share.
///
/// `sequence` grows within a connection; `OcoGroup::reset_for_reconnect` starts it anew.
#[derive(Debug, Clone, Copy, PartialEq, Eq, Structural)]
pub struct TradeTick {
    pub sequence: u64,
    pub price: u64,
    pub volume: u64,
    /// When the trade came in, stamped before it was queued: a later stamp could not tell a trade
    /// left over from before a reconnect.
    pub at: Nanos,
}

/// How far one scenario of a group has come.
#[derive(Debug, PartialEq, Eq)]
pub struct ScenarioState {
    pub scenario: ValidatedScenario,
    pub status: ScenarioStatus,
    pub confirming_since: Option<Nanos>,
    pub confirming_ticks: u8,
    /// When the setup's reference price was seen, where the caller knows.
    pub reference_observed_at: Option<i64>,
}

impl Clone for ScenarioState {
    fn clone(&self) -> (copy: Self)
        ensures
            copy == *self,
    {
        ScenarioState {
            scenario: self.scenario.clone(),
            status: self.status,
            confirming_since: self.confirming_since,
            confirming_ticks: self.confirming_ticks,
            reference_observed_at: self.reference_observed_at,
        }
    }
}

impl ScenarioState {
    /// Still waiting for its trigger.
    pub open spec fn active(self) -> bool {
        self.status == ScenarioStatus::Armed || self.status == ScenarioStatus::Confirming
    }

    /// A trade at `price` lies at or beyond the trigger.
    pub open spec fn met_by(self, price: u64) -> bool {
        match self.scenario.product {
            ProductKind::Leverage => price >= self.scenario.trigger_price,
            ProductKind::Inverse => price <= self.scenario.trigger_price,
        }
    }

    /// A trade at `price` speaks against the setup that the scenario came from.
    pub open spec fn invalidated_by(self, price: u64) -> bool {
        match self.scenario.setup {
            Some(setup) => match self.scenario.product {
                ProductKind::Leverage => price <= setup.invalidation_price,
                ProductKind::Inverse => price >= setup.invalidation_price,
            },
            None => false,
        }
    }

    /// Something of a confirmation is under way.
    pub open spec fn confirming(self) -> bool {
        self.status == ScenarioStatus::Confirming || self.confirming_since is Some
            || self.confirming_ticks != 0
    }

    /// The same scenario with no confirmation under way and the given status.
    pub open spec fn settled(self, status: ScenarioStatus) -> ScenarioState {
        ScenarioState { status, confirming_since: None, confirming_ticks: 0, ..self }
    }

    /// The trade ends the wait: enough trades and enough time had been gathered before it.
    pub open spec fn won_by(self, tick: TradeTick) -> bool {
        &&& self.active()
        &&& !self.invalidated_by(tick.price)
        &&& self.met_by(tick.price)
        &&& self.confirming_since is Some
        &&& tick.at - self.confirming_since->0 >= CONFIRMATION_DURATION
        &&& self.confirming_ticks >= REQUIRED_CONFIRMING_TICKS
    }

    /// The scenario after a trade that no scenario of the group was won by.
    pub open spec fn observing(self, tick: TradeTick) -> ScenarioState {
        if !self.active() {
            self
        } else if self.invalidated_by(tick.price) {
            self.settled(ScenarioStatus::Invalidated)
        } else if !self.met_by(tick.price) {
            self.settled(ScenarioStatus::Armed)
        } else if self.confirming_since is None {
            ScenarioState {
                status: ScenarioStatus::Confirming,
                confirming_since: Some(tick.at),
                confirming_ticks: 1,
                ..self
            }
        } else {
            ScenarioState {
                confirming_ticks: if self.confirming_ticks >= REQUIRED_CONFIRMING_TICKS {
                    REQUIRED_CONFIRMING_TICKS
                } else {
                    (self.confirming_ticks + 1) as u8
                },
                ..self
            }
        }
    }

    /// Such a trade is news to the scenario.
    pub open spec fn noticing(self, tick: TradeTick) -> bool {
        self.active() && (self.invalidated_by(tick.price) || self.met_by(tick.price)
            || self.confirming())
    }

    fn is_active(&self) -> (yes: bool)
        ensures
            yes == self.active(),
    {
        matches!(self.status, ScenarioStatus::Armed | ScenarioStatus::Confirming)
    }

    fn is_condition_met(&self, price: u64) -> (yes: bool)
        ensures
            yes == self.met_by(price),
    {
        match self.scenario.product {
            ProductKind::Leverage => price >= self.scenario.trigger_price,
            ProductKind::Inverse => price <= self.scenario.trigger_price,
        }
    }

    fn is_invalidated(&self, price: u64) -> (yes: bool)
        ensures
            yes == self.invalidated_by(price),
    {
        match &self.scenario.setup {
            Some(setup) => match self.scenario.product {
                ProductKind::Leverage => price <= setup.invalidation_price,
                ProductKind::Inverse => price >= setup.invalidation_price,
            },
            None => false,
        }
    }

    fn is_confirming(&self) -> (yes: bool)
        ensures
            yes == self.confirming(),
    {
        self.status == ScenarioStatus::Confirming || self.confirming_since.is_some()
            || self.confirming_ticks != 0
    }

    fn is_won_by(&self, tick: &TradeTick) -> (yes: bool)
        ensures
            yes == self.won_by(*tick),
    {
        if !self.is_active() || self.is_invalidated(tick.price) || !self.is_condition_met(
            tick.price,
        ) {
            return false;
        }
        match self.confirming_since {
            None => false,
            Some(since) => tick.at >= since && tick.at - since >= CONFIRMATION_DURATION
                && self.confirming_ticks >= REQUIRED_CONFIRMING_TICKS,
        }
    }

    fn settle(&mut self, status: ScenarioStatus)
        ensures
            *final(self) == old(self).settled(status),
    {
        self.status = status;
        self.confirming_since = None;
        self.confirming_ticks = 0;
    }

    /// Drops a confirmation that is under way. The result says whether there was one.
    fn reset_confirmation(&mut self) -> (changed: bool)
        ensures
            changed == old(self).confirming(),
            *final(self) == (if old(self).active() {
                old(self).settled(ScenarioStatus::Armed)
            } else {
                *old(self)
            }),
    {
        let changed = self.is_confirming();
        if self.is_active() {
            self.settle(ScenarioStatus::Armed);
        }
        changed
    }

    /// Takes in a trade that no scenario of the group was won by. The result says whether the
    /// trade was news.
    fn observe(&mut self, tick: &TradeTick) -> (noticed: bool)
        ensures
            *final(self) == old(self).observing(*tick),
            noticed == old(self).noticing(*tick),
    {
        if !self.is_active() {
            return false;
        }
        if self.is_invalidated(tick.price) {
            self.settle(ScenarioStatus::Invalidated);
            return true;
        }
        if !self.is_condition_met(tick.price) {
            return self.reset_confirmation();
        }
        match self.confirming_since {
            None => {
                self.status = ScenarioStatus::Confirming;
                self.confirming_since = Some(tick.at);
                self.confirming_ticks = 1;
            },
            Some(_) => {
                if self.confirming_ticks >= REQUIRED_CONFIRMING_TICKS {
                    self.confirming_ticks = REQUIRED_CONFIRMING_TICKS;
                } else {
                    self.confirming_ticks = self.confirming_ticks + 1;
                }
            },
        }
        true
    }
}

/// Why a group could not be armed.
#[derive(Debug, Clone, Copy, PartialEq, Eq, Structural)]
pub enum ArmError {
    NoScenarios,
    TooManyScenarios { count: usize },
    InvalidExpiry,
}

/// The scenario that won its group.
#[derive(Debug, PartialEq, Eq)]
pub struct TriggeredScenario {
    pub group_id: i64,
    pub revision: u64,
    pub scenario: ValidatedScenario,
}

impl Clone for TriggeredScenario {
    fn clone(&self) -> (copy: Self)
        ensures
            copy == *self,
    {
        TriggeredScenario {
            group_id: self.group_id,
            revision: self.revision,
            scenario: self.scenario.clone(),
        }
    }
}

/// What a trade did to a group.
#[derive(Debug, PartialEq, Eq)]
pub enum TickOutcome {
    Ignored,
    Updated,
    Triggered(TriggeredScenario),
    Expired,
}

/// What the caller already knows of one product when it arms a group.
#[derive(Debug, Clone, Copy, PartialEq, Eq, Structural)]
pub struct ScenarioSeed {
    pub product: ProductKind,
    pub status: ScenarioStatus,
    pub reference_observed_at: Option<i64>,
}

impl ScenarioSeed {
    /// The scenario waits for its trigger.
    pub fn armed(product: ProductKind, reference_observed_at: Option<i64>) -> (seed: Self)
        ensures
            seed == (ScenarioSeed {
                product,
                status: ScenarioStatus::Armed,
                reference_observed_at,
            }),
    {
        ScenarioSeed { product, status: ScenarioStatus::Armed, reference_observed_at }
    }

    /// The trigger price had been passed before the decision arrived.
    pub fn missed(product: ProductKind, reference_observed_at: Option<i64>) -> (seed: Self)
        ensures
            seed == (ScenarioSeed {
                product,
                status: ScenarioStatus::Missed,
                reference_observed_at,
            }),
    {
        ScenarioSeed { product, status: ScenarioStatus::Missed, reference_observed_at }
    }

    /// The setup had been refuted before the decision arrived.
    pub fn invalidated(product: ProductKind, reference_observed_at: Option<i64>) -> (seed: Self)
        ensures
            seed == (ScenarioSeed {
                product,
                status: ScenarioStatus::Invalidated,
                reference_observed_at,
            }),
    {
        ScenarioSeed { product, status: ScenarioStatus::Invalidated, reference_observed_at }
    }
}

/// The first seed for the scenario's product decides how it starts; without one it is armed.
pub open spec fn seeded(scenario: ValidatedScenario, seeds: Seq<ScenarioSeed>) -> ScenarioState {
    let i = first_where(seeds, |seed: ScenarioSeed| seed.product == scenario.product);
    ScenarioState {
        scenario,
        status: if i < seeds.len() {
            seeds[i].status
        } else {
            ScenarioStatus::Armed
        },
        confirming_since: None,
        confirming_ticks: 0,
        reference_observed_at: if i < seeds.len() {
            seeds[i].reference_observed_at
        } else {
            None
        },
    }
}

/// How many of the scenarios satisfy `p`.
pub open spec fn count_where(s: Seq<ScenarioState>, p: spec_fn(ScenarioState) -> bool) -> nat
    decreases s.len(),
{
    if s.len() == 0 {
        0
    } else {
        count_where(s.drop_last(), p) + if p(s.last()) {
            1nat
        } else {
            0nat
        }
    }
}

proof fn lemma_count_step(s: Seq<ScenarioState>, p: spec_fn(ScenarioState) -> bool, i: int)
    requires
        0 <= i < s.len(),
    ensures
        count_where(s.take(i + 1), p) == count_where(s.take(i), p) + if p(s[i]) {
            1nat
        } else {
            0nat
        },
{
    assert(s.take(i + 1).drop_last() =~= s.take(i));
}

/// Something is counted exactly where something satisfies `p`.
pub proof fn lemma_count_bound(s: Seq<ScenarioState>, p: spec_fn(ScenarioState) -> bool)
    ensures
        count_where(s, p) <= s.len(),
        count_where(s, p) > 0 <==> exists|i: int| 0 <= i < s.len() && p(#[trigger] s[i]),
    decreases s.len(),
{
    if s.len() > 0 {
        lemma_count_bound(s.drop_last(), p);
        if exists|i: int| 0 <= i < s.len() && p(#[trigger] s[i]) {
            let i = choose|i: int| 0 <= i < s.len() && p(#[trigger] s[i]);
            if i < s.len() - 1 {
                assert(p(s.drop_last()[i]));
            }
        }
        if count_where(s, p) > 0 && !p(s.last()) {
            let i = choose|i: int|
                0 <= i < s.drop_last().len() && p(#[trigger] s.drop_last()[i]);
            assert(p(s[i]));
        }
    }
}

/// What a group is made of.
#[verifier::ext_equal]
pub struct OcoView {
    pub group_id: i64,
    pub revision: u64,
    pub expires_at: Nanos,
    /// Trades stamped at or before this time are left over from an earlier connection.
    pub accept_ticks_after: Nanos,
    pub scenarios: Seq<ScenarioState>,
    pub last_sequence: Option<u64>,
    pub winner: Option<TriggeredScenario>,
}

impl OcoView {
    pub open spec fn has_active(self) -> bool {
        exists|i: int| 0 <= i < self.scenarios.len() && (#[trigger] self.scenarios[i]).active()
    }

    pub open spec fn active_count(self) -> nat {
        count_where(self.scenarios, |s: ScenarioState| s.active())
    }

    /// How long the product's first scenario has been confirming, three seconds at most.
    pub open spec fn confirming_span(self, product: ProductKind, now: Nanos) -> int {
        let i = first_where(self.scenarios, |s: ScenarioState| s.scenario.product == product);
        if i < self.scenarios.len() && self.scenarios[i].confirming_since is Some {
            let span = now - self.scenarios[i].confirming_since->0;
            if span < 0 {
                0
            } else if span > CONFIRMATION_DURATION {
                CONFIRMATION_DURATION as int
            } else {
                span
            }
        } else {
            0
        }
    }

    /// The time is up for scenarios that still wait.
    pub open spec fn expires_by(self, now: Nanos) -> bool {
        self.winner is None && now >= self.expires_at && self.has_active()
    }

    /// Every scenario that still waits ends with `status`.
    pub open spec fn ended(self, status: ScenarioStatus) -> OcoView {
        OcoView {
            scenarios: self.scenarios.map_values(
                |s: ScenarioState|
                    if s.active() {
                        s.settled(status)
                    } else {
                        s
                    },
            ),
            ..self
        }
    }

    /// A fresh connection: nothing confirmed yet, and trades up to `at` do not count.
    pub open spec fn reconnected(self, at: Nanos) -> OcoView {
        OcoView {
            accept_ticks_after: at,
            last_sequence: None,
            scenarios: self.scenarios.map_values(
                |s: ScenarioState|
                    if s.active() {
                        s.settled(ScenarioStatus::Armed)
                    } else {
                        s
                    },
            ),
            ..self
        }
    }

    /// The trade is a real one, newer than the connection and than every trade before it.
    pub open spec fn admits(self, tick: TradeTick) -> bool {
        &&& self.winner is None
        &&& tick.volume != 0
        &&& tick.price != 0
        &&& tick.at > self.accept_ticks_after
        &&& self.last_sequence is Some ==> tick.sequence > self.last_sequence->0
    }

    /// Index of the scenario that the trade decides for, or the number of scenarios.
    pub open spec fn winner_index(self, tick: TradeTick) -> int {
        first_where(self.scenarios, |s: ScenarioState| s.won_by(tick))
    }

    pub open spec fn triggered(self, index: int) -> TriggeredScenario {
        TriggeredScenario {
            group_id: self.group_id,
            revision: self.revision,
            scenario: self.scenarios[index].scenario,
        }
    }

    /// The group after the scenario at `index` has won: it alone is triggered.
    pub open spec fn decided(self, index: int) -> OcoView {
        OcoView {
            scenarios: Seq::new(
                self.scenarios.len(),
                |i: int|
                    self.scenarios[i].settled(
                        if i == index {
                            ScenarioStatus::Triggered
                        } else {
                            ScenarioStatus::CancelledByOco
                        },
                    ),
            ),
            winner: Some(self.triggered(index)),
            ..self
        }
    }

    /// The group after an admitted trade that decides nothing.
    pub open spec fn observing(self, tick: TradeTick) -> OcoView {
        OcoView {
            scenarios: self.scenarios.map_values(|s: ScenarioState| s.observing(tick)),
            ..self
        }
    }

    pub open spec fn noticing(self, tick: TradeTick) -> bool {
        exists|i: int|
            0 <= i < self.scenarios.len() && (#[trigger] self.scenarios[i]).noticing(tick)
    }

    /// The group after a trade.
    pub open spec fn after_tick(self, tick: TradeTick) -> OcoView {
        let seen = OcoView { last_sequence: Some(tick.sequence), ..self };
        if self.expires_by(tick.at) {
            self.ended(ScenarioStatus::Expired)
        } else if !self.admits(tick) {
            self
        } else if self.winner_index(tick) < self.scenarios.len() {
            seen.decided(self.winner_index(tick))
        } else {
            seen.observing(tick)
        }
    }

    /// What a trade reports.
    pub open spec fn tick_outcome(self, tick: TradeTick) -> TickOutcome {
        if self.expires_by(tick.at) {
            TickOutcome::Expired
        } else if !self.admits(tick) {
            TickOutcome::Ignored
        } else if self.winner_index(tick) < self.scenarios.len() {
            TickOutcome::Triggered(self.triggered(self.winner_index(tick)))
        } else if self.noticing(tick) {
            TickOutcome::Updated
        } else {
            TickOutcome::Ignored
        }
    }
}

/// A group of at most two scenarios of which only one can win.
#[derive(Debug)]
pub struct OcoGroup {
    group_id: i64,
    revision: u64,
    expires_at: Nanos,
    accept_ticks_after: Nanos,
    scenarios: Vec<ScenarioState>,
    last_sequence: Option<u64>,
    winner: Option<TriggeredScenario>,
}

impl View for OcoGroup {
    type V = OcoView;

    closed spec fn view(&self) -> OcoView {
        OcoView {
            group_id: self.group_id,
            revision: self.revision,
            expires_at: self.expires_at,
            accept_ticks_after: self.accept_ticks_after,
            scenarios: self.scenarios@,
            last_sequence: self.last_sequence,
            winner: self.winner,
        }
    }
}

/// Why these arguments arm no group, if they do not.
pub open spec fn arm_error(
    scenarios: Seq<ValidatedScenario>,
    armed_at: Nanos,
    expires_at: Nanos,
) -> Option<ArmError> {
    if scenarios.len() == 0 {
        Some(ArmError::NoScenarios)
    } else if scenarios.len() > 2 {
        Some(ArmError::TooManyScenarios { count: scenarios.len() as usize })
    } else if expires_at <= armed_at {
        Some(ArmError::InvalidExpiry)
    } else {
        None
    }
}

impl OcoGroup {
    /// Arms the scenarios of a decision. Trades stamped at or before `armed_at` do not count.
    pub fn arm(
        group_id: i64,
        revision: u64,
        decision: &ValidatedDecision,
        armed_at: Nanos,
        expires_at: Nanos,
    ) -> (result: Result<Self, ArmError>)
        ensures
            match result {
                Ok(group) => {
                    &&& arm_error(decision.scenarios@, armed_at, expires_at) is None
                    &&& group@ == (OcoView {
                        group_id,
                        revision,
                        expires_at,
                        accept_ticks_after: armed_at,
                        scenarios: decision.scenarios@.map_values(
                            |s: ValidatedScenario| seeded(s, Seq::empty()),
                        ),
                        last_sequence: None,
                        winner: None,
                    })
                },
                Err(error) => arm_error(decision.scenarios@, armed_at, expires_at) == Some(error),
            },
    {
        let seeds: Vec<ScenarioSeed> = Vec::new();
        assert(seeds@ =~= Seq::empty());
        Self::arm_seeded(group_id, revision, decision, &seeds, None, armed_at, expires_at)
    }

    /// Arms the scenarios of a decision of which the caller already knows something.
    ///
    /// A seed says how the scenario of its product starts. Trades up to `last_trade_sequence` have
    /// been seen.
    pub fn arm_seeded(
        group_id: i64,
        revision: u64,
        decision: &ValidatedDecision,
        seeds: &[ScenarioSeed],
        last_trade_sequence: Option<u64>,
        armed_at: Nanos,
        expires_at: Nanos,
    ) -> (result: Result<Self, ArmError>)
        ensures
            match result {
                Ok(group) => {
                    &&& arm_error(decision.scenarios@, armed_at, expires_at) is None
                    &&& group@ == (OcoView {
                        group_id,
                        revision,
                        expires_at,
                        accept_ticks_after: armed_at,
                        scenarios: decision.scenarios@.map_values(
                            |s: ValidatedScenario| seeded(s, seeds@),
                        ),
                        last_sequence: last_trade_sequence,
                        winner: None,
                    })
                },
                Err(error) => arm_error(decision.scenarios@, armed_at, expires_at) == Some(error),
            },
    {
        if decision.scenarios.len() == 0 {
            return Err(ArmError::NoScenarios);
        }
        if decision.scenarios.len() > 2 {
            return Err(ArmError::TooManyScenarios { count: decision.scenarios.len() });
        }
        if expires_at <= armed_at {
            return Err(ArmError::InvalidExpiry);
        }
        let mut scenarios: Vec<ScenarioState> = Vec::new();
        let mut i: usize = 0;
        while i < decision.scenarios.len()
            invariant
                i <= decision.scenarios@.len(),
                scenarios@ =~= decision.scenarios@.take(i as int).map_values(
                    |s: ValidatedScenario| seeded(s, seeds@),
                ),
            decreases decision.scenarios@.len() - i,
        {
            scenarios.push(seed_scenario(&decision.scenarios[i], seeds));
            i += 1;
        }
        assert(decision.scenarios@.take(i as int) =~= decision.scenarios@);
        Ok(
            OcoGroup {
                group_id,
                revision,
                expires_at,
                accept_ticks_after: armed_at,
                scenarios,
                last_sequence: last_trade_sequence,
                winner: None,
            },
        )
    }

    pub fn group_id(&self) -> (id: i64)
        ensures
            id == self@.group_id,
    {
        self.group_id
    }

    pub fn revision(&self) -> (revision: u64)
        ensures
            revision == self@.revision,
    {
        self.revision
    }

    pub fn scenarios(&self) -> (scenarios: &[ScenarioState])
        ensures
            scenarios@ == self@.scenarios,
    {
        self.scenarios.as_slice()
    }

    /// The first scenario for the product.
    pub fn scenario(&self, product: ProductKind) -> (found: Option<&ScenarioState>)
        ensures
            ({
                let i = first_where(
                    self@.scenarios,
                    |s: ScenarioState| s.scenario.product == product,
                );
                match found {
                    Some(state) => i < self@.scenarios.len() && *state == self@.scenarios[i],
                    None => i == self@.scenarios.len(),
                }
            }),
    {
        let ghost p = |s: ScenarioState| s.scenario.product == product;
        let mut i: usize = 0;
        while i < self.scenarios.len()
            invariant
                i <= self.scenarios@.len(),
                p == (|s: ScenarioState| s.scenario.product == product),
                forall|j: int| 0 <= j < i ==> !p(#[trigger] self.scenarios@[j]),
            decreases self.scenarios@.len() - i,
        {
            if self.scenarios[i].scenario.product == product {
                proof {
                    lemma_first_where(self.scenarios@, p, i as int);
                }
                return Some(&self.scenarios[i]);
            }
            i += 1;
        }
        proof {
            lemma_first_where(self.scenarios@, p, i as int);
        }
        None
    }

    pub fn winner(&self) -> (winner: Option<&TriggeredScenario>)
        ensures
            match winner {
                Some(w) => self@.winner == Some(*w),
                None => self@.winner is None,
            },
    {
        self.winner.as_ref()
    }

    /// Whether a scenario still waits for its trigger.
    pub fn has_active_scenarios(&self) -> (yes: bool)
        ensures
            yes == self@.has_active(),
    {
        let mut i: usize = 0;
        while i < self.scenarios.len()
            invariant
                i <= self.scenarios@.len(),
                forall|j: int| 0 <= j < i ==> !(#[trigger] self.scenarios@[j]).active(),
            decreases self.scenarios@.len() - i,
        {
            if self.scenarios[i].is_active() {
                assert(self@.scenarios[i as int].active());
                return true;
            }
            i += 1;
        }
        false
    }

    /// How long the product's scenario has been confirming, shown as three seconds from then on.
    pub fn confirming_elapsed(&self, product: ProductKind, now: Nanos) -> (elapsed: Nanos)
        ensures
            elapsed == self@.confirming_span(product, now),
    {
        match self.scenario(product) {
            None => 0,
            Some(state) => match state.confirming_since {
                None => 0,
                Some(since) => {
                    if now <= since {
                        0
                    } else if now - since > CONFIRMATION_DURATION {
                        CONFIRMATION_DURATION
                    } else {
                        now - since
                    }
                },
            },
        }
    }

    fn end_active(&mut self, status: ScenarioStatus) -> (ended: usize)
        ensures
            final(self)@ == old(self)@.ended(status),
            ended == old(self)@.active_count(),
    {
        let ghost before = self.scenarios@;
        let ghost p = |s: ScenarioState| s.active();
        let ghost f = |s: ScenarioState|
            if s.active() {
                s.settled(status)
            } else {
                s
            };
        let mut ended: usize = 0;
        let mut i: usize = 0;
        while i < self.scenarios.len()
            invariant
                i <= before.len(),
                self.scenarios@.len() == before.len(),
                p == (|s: ScenarioState| s.active()),
                f == (|s: ScenarioState|
                    if s.active() {
                        s.settled(status)
                    } else {
                        s
                    }),
                forall|j: int|
                    0 <= j < before.len() ==> #[trigger] self.scenarios@[j] == (if j < i {
                        f(before[j])
                    } else {
                        before[j]
                    }),
                ended == count_where(before.take(i as int), p),
                ended <= i,
                self.group_id == old(self).group_id,
                self.revision == old(self).revision,
                self.expires_at == old(self).expires_at,
                self.accept_ticks_after == old(self).accept_ticks_after,
                self.last_sequence == old(self).last_sequence,
                self.winner == old(self).winner,
            decreases before.len() - i,
        {
            proof {
                lemma_count_step(before, p, i as int);
            }
            if self.scenarios[i].is_active() {
                self.scenarios[i].settle(status);
                ended += 1;
            }
            i += 1;
        }
        assert(before.take(i as int) =~= before);
        assert(self.scenarios@ =~= before.map_values(f));
        ended
    }

    /// Called when the clock moves on. A trade stamped at the expiry itself no longer enters.
    pub fn expire(&mut self, now: Nanos) -> (changed: bool)
        ensures
            changed == old(self)@.expires_by(now),
            final(self)@ == (if changed {
                old(self)@.ended(ScenarioStatus::Expired)
            } else {
                old(self)@
            }),
    {
        if self.winner.is_some() || now < self.expires_at || !self.has_active_scenarios() {
            return false;
        }
        self.end_active(ScenarioStatus::Expired);
        true
    }

    /// Ends the group before a new decision takes its place.
    pub fn replace(&mut self) -> (changed: bool)
        ensures
            changed == (old(self)@.winner is None && old(self)@.has_active()),
            final(self)@ == (if changed {
                old(self)@.ended(ScenarioStatus::Replaced)
            } else {
                old(self)@
            }),
    {
        if self.winner.is_some() || !self.has_active_scenarios() {
            return false;
        }
        self.end_active(ScenarioStatus::Replaced);
        true
    }

    /// After a reconnect or a gap in the feed, drops confirmations and the sequence number. Trades
    /// stamped at or before `reset_at` stay ignored when they arrive later. Returns the number of
    /// scenarios whose state that changed: those that expired by then, or whose confirmation was
    /// dropped.
    pub fn reset_for_reconnect(&mut self, reset_at: Nanos) -> (count: usize)
        ensures
            if old(self)@.expires_by(reset_at) {
                &&& final(self)@ == old(self)@.ended(ScenarioStatus::Expired)
                &&& count == old(self)@.active_count()
            } else if old(self)@.winner is Some {
                &&& final(self)@ == old(self)@
                &&& count == 0
            } else {
                &&& final(self)@ == old(self)@.reconnected(reset_at)
                &&& count == count_where(
                    old(self)@.scenarios,
                    |s: ScenarioState| s.confirming(),
                )
            },
    {
        if self.winner.is_none() && reset_at >= self.expires_at && self.has_active_scenarios() {
            return self.end_active(ScenarioStatus::Expired);
        }
        if self.winner.is_some() {
            return 0;
        }
        self.accept_ticks_after = reset_at;
        self.last_sequence = None;
        let ghost before = self.scenarios@;
        let ghost p = |s: ScenarioState| s.confirming();
        let ghost f = |s: ScenarioState|
            if s.active() {
                s.settled(ScenarioStatus::Armed)
            } else {
                s
            };
        let mut count: usize = 0;
        let mut i: usize = 0;
        while i < self.scenarios.len()
            invariant
                i <= before.len(),
                self.scenarios@.len() == before.len(),
                p == (|s: ScenarioState| s.confirming()),
                f == (|s: ScenarioState|
                    if s.active() {
                        s.settled(ScenarioStatus::Armed)
                    } else {
                        s
                    }),
                forall|j: int|
                    0 <= j < before.len() ==> #[trigger] self.scenarios@[j] == (if j < i {
                        f(before[j])
                    } else {
                        before[j]
                    }),
                count == count_where(before.take(i as int), p),
                count <= i,
                self.group_id == old(self).group_id,
                self.revision == old(self).revision,
                self.expires_at == old(self).expires_at,
                self.accept_ticks_after == reset_at,
                self.last_sequence is None,
                self.winner == old(self).winner,
            decreases before.len() - i,
        {
            proof {
                lemma_count_step(before, p, i as int);
            }
            if self.scenarios[i].reset_confirmation() {
                count += 1;
            }
            i += 1;
        }
        assert(before.take(i as int) =~= before);
        assert(self.scenarios@ =~= before.map_values(f));
        count
    }

    /// Takes in one trade of the underlying share.
    pub fn on_trade_tick(&mut self, tick: TradeTick) -> (outcome: TickOutcome)
        ensures
            final(self)@ == old(self)@.after_tick(tick),
            outcome == old(self)@.tick_outcome(tick),
    {
        if self.expire(tick.at) {
            return TickOutcome::Expired;
        }
        if self.winner.is_some() || tick.volume == 0 || tick.price == 0 || tick.at
            <= self.accept_ticks_after {
            return TickOutcome::Ignored;
        }
        if let Some(last) = self.last_sequence {
            if tick.sequence <= last {
                return TickOutcome::Ignored;
            }
        }
        self.last_sequence = Some(tick.sequence);
        let count: usize = self.scenarios.len();
        let winning: usize = self.find_winner(&tick);
        if winning < count {
            return self.decide(winning);
        }
        if self.observe(&tick) {
            TickOutcome::Updated
        } else {
            TickOutcome::Ignored
        }
    }

    fn find_winner(&self, tick: &TradeTick) -> (index: usize)
        ensures
            index == self@.winner_index(*tick),
            index <= self@.scenarios.len(),
    {
        let ghost p = |s: ScenarioState| s.won_by(*tick);
        let mut i: usize = 0;
        while i < self.scenarios.len()
            invariant
                i <= self.scenarios@.len(),
                p == (|s: ScenarioState| s.won_by(*tick)),
                forall|j: int| 0 <= j < i ==> !p(#[trigger] self.scenarios@[j]),
            decreases self.scenarios@.len() - i,
        {
            if self.scenarios[i].is_won_by(tick) {
                proof {
                    lemma_first_where(self.scenarios@, p, i as int);
                }
                return i;
            }
            i += 1;
        }
        proof {
            lemma_first_where(self.scenarios@, p, i as int);
        }
        i
    }

    fn decide(&mut self, index: usize) -> (outcome: TickOutcome)
        requires
            index < old(self)@.scenarios.len(),
        ensures
            final(self)@ == old(self)@.decided(index as int),
            outcome == TickOutcome::Triggered(old(self)@.triggered(index as int)),
    {
        let triggered = TriggeredScenario {
            group_id: self.group_id,
            revision: self.revision,
            scenario: self.scenarios[index].scenario.clone(),
        };
        let ghost before = self.scenarios@;
        let mut i: usize = 0;
        while i < self.scenarios.len()
            invariant
                i <= before.len(),
                self.scenarios@.len() == before.len(),
                forall|j: int|
                    0 <= j < before.len() ==> #[trigger] self.scenarios@[j] == (if j < i {
                        before[j].settled(
                            if j == index {
                                ScenarioStatus::Triggered
                            } else {
                                ScenarioStatus::CancelledByOco
                            },
                        )
                    } else {
                        before[j]
                    }),
                self.group_id == old(self).group_id,
                self.revision == old(self).revision,
                self.expires_at == old(self).expires_at,
                self.accept_ticks_after == old(self).accept_ticks_after,
                self.last_sequence == old(self).last_sequence,
            decreases before.len() - i,
        {
            if i == index {
                self.scenarios[i].settle(ScenarioStatus::Triggered);
            } else {
                self.scenarios[i].settle(ScenarioStatus::CancelledByOco);
            }
            i += 1;
        }
        self.winner = Some(triggered.clone());
        assert(self.scenarios@ =~= old(self)@.decided(index as int).scenarios);
        TickOutcome::Triggered(triggered)
    }

    fn observe(&mut self, tick: &TradeTick) -> (noticed: bool)
        ensures
            final(self)@ == old(self)@.observing(*tick),
            noticed == old(self)@.noticing(*tick),
    {
        let ghost before = self.scenarios@;
        let ghost f = |s: ScenarioState| s.observing(*tick);
        let mut noticed = false;
        let mut i: usize = 0;
        while i < self.scenarios.len()
            invariant
                i <= before.len(),
                self.scenarios@.len() == before.len(),
                f == (|s: ScenarioState| s.observing(*tick)),
                forall|j: int|
                    0 <= j < before.len() ==> #[trigger] self.scenarios@[j] == (if j < i {
                        f(before[j])
                    } else {
                        before[j]
                    }),
                noticed == (exists|j: int| 0 <= j < i && (#[trigger] before[j]).noticing(*tick)),
                self.group_id == old(self).group_id,
                self.revision == old(self).revision,
                self.expires_at == old(self).expires_at,
                self.accept_ticks_after == old(self).accept_ticks_after,
                self.last_sequence == old(self).last_sequence,
                self.winner == old(self).winner,
            decreases before.len() - i,
        {
            assert(self.scenarios@[i as int] == before[i as int]);
            if self.scenarios[i].observe(tick) {
                assert(before[i as int].noticing(*tick));
                noticed = true;
            }
            i += 1;
        }
        assert(self.scenarios@ =~= before.map_values(f));
        noticed
    }
}

fn seed_scenario(scenario: &ValidatedScenario, seeds: &[ScenarioSeed]) -> (state: ScenarioState)
    ensures
        state == seeded(*scenario, seeds@),
{
    let ghost p = |seed: ScenarioSeed| seed.product == scenario.product;
    let mut i: usize = 0;
    while i < seeds.len()
        invariant
            i <= seeds@.len(),
            p == (|seed: ScenarioSeed| seed.product == scenario.product),
            forall|j: int| 0 <= j < i ==> !p(#[trigger] seeds@[j]),
        decreases seeds@.len() - i,
    {
        if seeds[i].product == scenario.product {
            proof {
                lemma_first_where(seeds@, p, i as int);
            }
            return ScenarioState {
                scenario: scenario.clone(),
                status: seeds[i].status,
                confirming_since: None,
                confirming_ticks: 0,
                reference_observed_at: seeds[i].reference_observed_at,
            };
        }
        i += 1;
    }
    proof {
        lemma_first_where(seeds@, p, i as int);
    }
    ScenarioState {
        scenario: scenario.clone(),
        status: ScenarioStatus::Armed,
        confirming_since: None,
        confirming_ticks: 0,
        reference_observed_at: None,
    }
}

/// A state that arming a group and feeding it can reach: one or two scenarios, a confirmation only
/// where one is under way, and a winner exactly where a scenario is triggered.
pub open spec fn well_formed(g: OcoView) -> bool {
    &&& 1 <= g.scenarios.len() <= 2
    &&& forall|i: int|
        0 <= i < g.scenarios.len() ==> {
            let s = #[trigger] g.scenarios[i];
            &&& s.confirming_ticks <= REQUIRED_CONFIRMING_TICKS
            &&& s.confirming_since is Some <==> s.status == ScenarioStatus::Confirming
            &&& s.confirming_ticks > 0 <==> s.status == ScenarioStatus::Confirming
        }
    &&& match g.winner {
        Some(w) => exists|k: int|
            {
                &&& 0 <= k < g.scenarios.len()
                &&& w == #[trigger] g.triggered(k)
                &&& g.scenarios[k].status == ScenarioStatus::Triggered
                &&& forall|i: int|
                    0 <= i < g.scenarios.len() && i != k ==> (#[trigger] g.scenarios[i]).status
                        == ScenarioStatus::CancelledByOco
            },
        None => forall|i: int|
            0 <= i < g.scenarios.len() ==> (#[trigger] g.scenarios[i]).status
                != ScenarioStatus::Triggered,
    }
}

/// A group starts well formed where no seed claims more than that its scenario is waiting, missed
/// or refuted.
pub proof fn arming_is_well_formed(
    group_id: i64,
    revision: u64,
    scenarios: Seq<ValidatedScenario>,
    seeds: Seq<ScenarioSeed>,
    last_sequence: Option<u64>,
    armed_at: Nanos,
    expires_at: Nanos,
)
    requires
        arm_error(scenarios, armed_at, expires_at) is None,
        forall|i: int|
            0 <= i < seeds.len() ==> (#[trigger] seeds[i]).status == ScenarioStatus::Armed
                || seeds[i].status == ScenarioStatus::Missed || seeds[i].status
                == ScenarioStatus::Invalidated,
    ensures
        well_formed(
            OcoView {
                group_id,
                revision,
                expires_at,
                accept_ticks_after: armed_at,
                scenarios: scenarios.map_values(|s: ValidatedScenario| seeded(s, seeds)),
                last_sequence,
                winner: None,
            },
        ),
{
    let states = scenarios.map_values(|s: ValidatedScenario| seeded(s, seeds));
    assert forall|i: int| 0 <= i < states.len() implies {
        let s = #[trigger] states[i];
        &&& s.confirming_ticks == 0
        &&& s.confirming_since is None
        &&& s.status != ScenarioStatus::Confirming
        &&& s.status != ScenarioStatus::Triggered
    } by {
        lemma_first_where_bounds(
            seeds,
            |seed: ScenarioSeed| seed.product == scenarios[i].product,
        );
    }
}

/// Every trade keeps a group well formed.
pub proof fn tick_keeps_well_formed(g: OcoView, tick: TradeTick)
    requires
        well_formed(g),
    ensures
        well_formed(g.after_tick(tick)),
{
    let h = g.after_tick(tick);
    lemma_first_where_bounds(g.scenarios, |s: ScenarioState| s.won_by(tick));
    if g.winner is Some {
        assert(!g.expires_by(tick.at) && !g.admits(tick));
    } else if !g.expires_by(tick.at) && g.admits(tick) {
        let k = g.winner_index(tick);
        if k < g.scenarios.len() {
            assert(h.winner == Some(h.triggered(k)));
        }
    }
}

/// Expiry, replacement and a reconnect keep a group well formed.
pub proof fn endings_keep_well_formed(g: OcoView, status: ScenarioStatus, at: Nanos)
    requires
        well_formed(g),
        g.winner is None,
        status == ScenarioStatus::Expired || status == ScenarioStatus::Replaced,
    ensures
        well_formed(g.ended(status)),
        well_formed(g.reconnected(at)),
{
}

/// Once a scenario has won, nothing changes the group any more: there is no second winner.
pub proof fn winner_is_final(g: OcoView, tick: TradeTick)
    requires
        g.winner is Some,
    ensures
        g.after_tick(tick) == g,
        g.tick_outcome(tick) == TickOutcome::Ignored,
        !g.expires_by(tick.at),
{
}

/// A scenario that no longer waits keeps its status, except that the winner of a group cancels
/// every other scenario of it.
pub proof fn ended_scenarios_stay_ended(g: OcoView, tick: TradeTick, i: int)
    requires
        0 <= i < g.scenarios.len(),
        !g.scenarios[i].active(),
    ensures
        g.after_tick(tick).scenarios[i].status == g.scenarios[i].status || (g.after_tick(
            tick,
        ).winner is Some && g.winner is None && g.after_tick(tick).scenarios[i].status
            == ScenarioStatus::CancelledByOco),
{
    lemma_first_where_bounds(g.scenarios, |s: ScenarioState| s.won_by(tick));
}

/// A trade triggers a scenario only where that scenario had been beyond its trigger for at least
/// three seconds and three trades before it, and the trade itself lies beyond the trigger and
/// comes before the expiry.
pub proof fn trigger_needs_confirmation(g: OcoView, tick: TradeTick)
    requires
        well_formed(g),
        g.tick_outcome(tick) is Triggered,
    ensures
        tick.at < g.expires_at,
        tick.at > g.accept_ticks_after,
        exists|k: int|
            {
                &&& 0 <= k < g.scenarios.len()
                &&& g.tick_outcome(tick) == TickOutcome::Triggered(#[trigger] g.triggered(k))
                &&& g.scenarios[k].status == ScenarioStatus::Confirming
                &&& g.scenarios[k].confirming_ticks == REQUIRED_CONFIRMING_TICKS
                &&& tick.at - g.scenarios[k].confirming_since->0 >= CONFIRMATION_DURATION
                &&& g.scenarios[k].met_by(tick.price)
            },
{
    lemma_first_where_bounds(g.scenarios, |s: ScenarioState| s.won_by(tick));
    let k = g.winner_index(tick);
    assert(g.scenarios[k].won_by(tick));
    assert(g.scenarios[k].active());
    assert(g.has_active());
    assert(g.tick_outcome(tick) == TickOutcome::Triggered(g.triggered(k)));
}

/// A trade whose sequence number was seen before, or that is stamped no later than the last
/// reconnect, changes nothing before the group expires.
pub proof fn stale_trades_are_ignored(g: OcoView, tick: TradeTick)
    requires
        tick.at < g.expires_at,
        tick.at <= g.accept_ticks_after || (g.last_sequence is Some && tick.sequence
            <= g.last_sequence->0),
    ensures
        g.after_tick(tick) == g,
        g.tick_outcome(tick) == TickOutcome::Ignored,
{
}

/// The same trade delivered twice counts once.
pub proof fn repeated_trade_counts_once(g: OcoView, tick: TradeTick)
    requires
        tick.at < g.expires_at,
    ensures
        g.after_tick(tick).after_tick(tick) == g.after_tick(tick),
{
}

/// Whatever has happened before, a trade stamped at or after the expiry enters nothing.
pub proof fn expiry_enters_nothing(g: OcoView, tick: TradeTick)
    requires
        tick.at >= g.expires_at,
    ensures
        !(g.tick_outcome(tick) is Triggered),
        g.after_tick(tick).winner == g.winner,
{
    lemma_first_where_bounds(g.scenarios, |s: ScenarioState| s.won_by(tick));
    let k = g.winner_index(tick);
    if k < g.scenarios.len() {
        assert(g.scenarios[k].active());
    }
}

/// Aligning a trigger never makes entry easier: an upward trigger only rises and a downward one
/// only falls, by less than a tick, onto a multiple of the tick.
pub proof fn aligned_trigger_is_conservative(price: u64, product: ProductKind)
    ensures
        aligned_trigger(price, product) % band_tick(price as int) == 0,
        product == ProductKind::Leverage ==> price <= aligned_trigger(price, product) < price
            + band_tick(price as int),
        product == ProductKind::Inverse ==> price - band_tick(price as int) < aligned_trigger(
            price,
            product,
        ) <= price,
{
    lemma_ceil_to(price as int, band_tick(price as int));
    lemma_floor_to(price as int, band_tick(price as int));
}

/// A price lies at or beyond a scenario's trigger: at it or above for the leveraged ETF, at it or
/// below for the inverse one.
pub open spec fn reaches(scenario: ValidatedScenario, price: u64) -> bool {
    ||| scenario.product == ProductKind::Leverage && price >= scenario.trigger_price
    ||| scenario.product == ProductKind::Inverse && price <= scenario.trigger_price
}

/// A price refutes the setup of a scenario that has one.
pub open spec fn refutes(scenario: ValidatedScenario, price: u64) -> bool {
    scenario.setup matches Some(setup) && {
        ||| scenario.product == ProductKind::Leverage && price <= setup.invalidation_price
        ||| scenario.product == ProductKind::Inverse && price >= setup.invalidation_price
    }
}

/// A scenario waits for its trigger.
pub open spec fn waits(s: ScenarioState) -> bool {
    s.status == ScenarioStatus::Armed || s.status == ScenarioStatus::Confirming
}

/// A trade counts: it is a real one, came after the connection and before the expiry, is newer than
/// every trade before it, and nothing has won yet.
pub open spec fn counts(g: OcoView, tick: TradeTick) -> bool {
    &&& g.winner is None
    &&& tick.volume > 0
    &&& tick.price > 0
    &&& g.accept_ticks_after < tick.at < g.expires_at
    &&& g.last_sequence matches Some(last) ==> last < tick.sequence
}

/// Three trades have been counted over three seconds, and this one is beyond the trigger too.
pub open spec fn confirmed_by(s: ScenarioState, tick: TradeTick) -> bool {
    &&& waits(s)
    &&& reaches(s.scenario, tick.price)
    &&& !refutes(s.scenario, tick.price)
    &&& s.confirming_since is Some
    &&& tick.at >= s.confirming_since->0 + 3_000_000_000
    &&& s.confirming_ticks == 3
}

/// A trade that counts and decides nothing moves each scenario by its own price alone: one that no
/// longer waits stays as it is, one whose setup the price refutes is over, one whose trigger the price
/// falls short of starts over from nothing, and one whose trigger it reaches has one trade more, up to
/// three, since the first of them.
pub proof fn trade_moves_each_scenario(g: OcoView, tick: TradeTick, i: int)
    requires
        well_formed(g),
        counts(g, tick),
        g.after_tick(tick).winner is None,
        0 <= i < g.scenarios.len(),
    ensures
        ({
            let s = g.scenarios[i];
            let t = g.after_tick(tick).scenarios[i];
            &&& g.after_tick(tick).scenarios.len() == g.scenarios.len()
            &&& t.scenario == s.scenario
            &&& t.reference_observed_at == s.reference_observed_at
            &&& !waits(s) ==> t == s
            &&& waits(s) && refutes(s.scenario, tick.price) ==> t.status
                == ScenarioStatus::Invalidated && t.confirming_since is None && t.confirming_ticks
                == 0
            &&& waits(s) && !refutes(s.scenario, tick.price) && !reaches(s.scenario, tick.price)
                ==> t.status == ScenarioStatus::Armed && t.confirming_since is None
                && t.confirming_ticks == 0
            &&& waits(s) && !refutes(s.scenario, tick.price) && reaches(s.scenario, tick.price) ==> {
                &&& t.status == ScenarioStatus::Confirming
                &&& s.confirming_since is Some ==> t.confirming_since == s.confirming_since
                &&& s.confirming_since is None ==> t.confirming_since == Some(tick.at)
                &&& s.confirming_ticks < 3 ==> t.confirming_ticks == s.confirming_ticks + 1
                &&& s.confirming_ticks == 3 ==> t.confirming_ticks == 3
            }
        }),
{
    lemma_first_where_bounds(g.scenarios, |s: ScenarioState| s.won_by(tick));
}

/// A trade that counts triggers a scenario exactly where it confirms one. The first that it confirms
/// wins, the others are cancelled, and no confirmation is left.
pub proof fn trade_triggers_what_it_confirms(g: OcoView, tick: TradeTick)
    requires
        well_formed(g),
        counts(g, tick),
    ensures
        g.tick_outcome(tick) is Triggered <==> exists|k: int|
            0 <= k < g.scenarios.len() && confirmed_by(#[trigger] g.scenarios[k], tick),
        g.after_tick(tick).winner is Some <==> g.tick_outcome(tick) is Triggered,
        forall|k: int|
            0 <= k < g.scenarios.len() && confirmed_by(#[trigger] g.scenarios[k], tick) && (forall|
                j: int,
            |
                0 <= j < k ==> !confirmed_by(#[trigger] g.scenarios[j], tick)) ==> {
                let won = TriggeredScenario {
                    group_id: g.group_id,
                    revision: g.revision,
                    scenario: g.scenarios[k].scenario,
                };
                let after = g.after_tick(tick);
                &&& g.tick_outcome(tick) == TickOutcome::Triggered(won)
                &&& after.winner == Some(won)
                &&& after.scenarios.len() == g.scenarios.len()
                &&& forall|i: int|
                    0 <= i < g.scenarios.len() ==> {
                        let t = #[trigger] after.scenarios[i];
                        &&& t.scenario == g.scenarios[i].scenario
                        &&& t.confirming_since is None
                        &&& t.confirming_ticks == 0
                        &&& t.status == if i == k {
                            ScenarioStatus::Triggered
                        } else {
                            ScenarioStatus::CancelledByOco
                        }
                    }
            },
{
    let p = |s: ScenarioState| s.won_by(tick);
    lemma_first_where_bounds(g.scenarios, p);
    assert forall|k: int| 0 <= k < g.scenarios.len() implies confirmed_by(
        #[trigger] g.scenarios[k],
        tick,
    ) == p(g.scenarios[k]) by {}
    let w = g.winner_index(tick);
    if w < g.scenarios.len() {
        assert(p(g.scenarios[w]));
        assert(confirmed_by(g.scenarios[w], tick));
    }
    assert forall|k: int|
        0 <= k < g.scenarios.len() && confirmed_by(#[trigger] g.scenarios[k], tick) && (forall|j: int|
            0 <= j < k ==> !confirmed_by(#[trigger] g.scenarios[j], tick)) implies w == k by {
        assert(p(g.scenarios[k]));
        assert(forall|j: int| 0 <= j < k ==> !p(#[trigger] g.scenarios[j]));
        lemma_first_where(g.scenarios, p, k);
    }
}

/// The report of a trade tells whether anything happened: nothing that is ignored changes a scenario,
/// a trade that counts is remembered by its number, and one that does not, before the expiry, changes
/// nothing at all.
pub proof fn report_tells_of_change(g: OcoView, tick: TradeTick)
    ensures
        g.tick_outcome(tick) == TickOutcome::Ignored ==> g.after_tick(tick).scenarios
            =~= g.scenarios && g.after_tick(tick).winner == g.winner,
        counts(g, tick) ==> g.after_tick(tick).last_sequence == Some(tick.sequence),
        tick.at < g.expires_at && !counts(g, tick) ==> g.after_tick(tick) == g && g.tick_outcome(tick)
            == TickOutcome::Ignored,
        g.after_tick(tick).group_id == g.group_id,
        g.after_tick(tick).revision == g.revision,
        g.after_tick(tick).expires_at == g.expires_at,
        g.after_tick(tick).accept_ticks_after == g.accept_ticks_after,
        counts(g, tick) && (exists|i: int|
            0 <= i < g.scenarios.len() && waits(#[trigger] g.scenarios[i]) && (reaches(
                g.scenarios[i].scenario,
                tick.price,
            ) || refutes(g.scenarios[i].scenario, tick.price))) ==> g.tick_outcome(tick)
            != TickOutcome::Ignored,
{
    lemma_first_where_bounds(g.scenarios, |s: ScenarioState| s.won_by(tick));
    if counts(g, tick) && exists|i: int|
        0 <= i < g.scenarios.len() && waits(#[trigger] g.scenarios[i]) && (reaches(
            g.scenarios[i].scenario,
            tick.price,
        ) || refutes(g.scenarios[i].scenario, tick.price)) {
        let i = choose|i: int|
            0 <= i < g.scenarios.len() && waits(#[trigger] g.scenarios[i]) && (reaches(
                g.scenarios[i].scenario,
                tick.price,
            ) || refutes(g.scenarios[i].scenario, tick.price));
        assert(g.scenarios[i].noticing(tick));
    }
}

/// At the expiry every scenario that waits is over, and no other is touched.
pub proof fn expiry_ends_what_waits(g: OcoView, tick: TradeTick, i: int)
    requires
        g.winner is None,
        tick.at >= g.expires_at,
        0 <= i < g.scenarios.len(),
        waits(g.scenarios[i]),
    ensures
        g.tick_outcome(tick) == TickOutcome::Expired,
        g.expires_by(tick.at),
        g.after_tick(tick).winner is None,
        g.after_tick(tick).scenarios.len() == g.scenarios.len(),
        forall|j: int|
            0 <= j < g.scenarios.len() ==> {
                let s = g.scenarios[j];
                let t = #[trigger] g.after_tick(tick).scenarios[j];
                &&& t.scenario == s.scenario
                &&& waits(s) ==> t.status == ScenarioStatus::Expired && t.confirming_since is None
                    && t.confirming_ticks == 0
                &&& !waits(s) ==> t == s
            },
{
    assert(g.scenarios[i].active());
}

/// A group that ends, or whose connection is new, keeps nothing of a confirmation, touches only what
/// waits, and stays the same group. On a new connection trades are counted anew from its moment on.
pub proof fn endings_touch_what_waits(g: OcoView, status: ScenarioStatus, at: Nanos, i: int)
    requires
        0 <= i < g.scenarios.len(),
    ensures
        ({
            let s = g.scenarios[i];
            let t = g.ended(status).scenarios[i];
            let u = g.reconnected(at).scenarios[i];
            &&& t.scenario == s.scenario && u.scenario == s.scenario
            &&& !waits(s) ==> t == s && u == s
            &&& waits(s) ==> t.status == status && t.confirming_since is None && t.confirming_ticks
                == 0
            &&& waits(s) ==> u.status == ScenarioStatus::Armed && u.confirming_since is None
                && u.confirming_ticks == 0
        }),
        g.ended(status).scenarios.len() == g.scenarios.len(),
        g.ended(status).winner == g.winner,
        g.ended(status).last_sequence == g.last_sequence,
        g.reconnected(at).scenarios.len() == g.scenarios.len(),
        g.reconnected(at).winner == g.winner,
        g.reconnected(at).last_sequence is None,
        g.reconnected(at).accept_ticks_after == at,
        g.reconnected(at).expires_at == g.expires_at,
        g.reconnected(at).group_id == g.group_id,
        g.reconnected(at).revision == g.revision,
        waits(g.scenarios[i]) ==> g.has_active(),
        g.has_active() ==> g.active_count() > 0,
{
    lemma_count_bound(g.scenarios, |s: ScenarioState| s.active());
    if waits(g.scenarios[i]) {
        assert(g.scenarios[i].active());
    }
    if g.has_active() {
        let k = choose|k: int| 0 <= k < g.scenarios.len() && (#[trigger] g.scenarios[k]).active();
        let p = |s: ScenarioState| s.active();
        assert(p(g.scenarios[k]));
    }
}

/// A group after trades, one by one.
pub open spec fn after_ticks(g: OcoView, ticks: Seq<TradeTick>) -> OcoView
    decreases ticks.len(),
{
    if ticks.len() == 0 {
        g
    } else {
        after_ticks(g, ticks.drop_last()).after_tick(ticks.last())
    }
}

/// How many of the trades from a place on counted when they came.
pub open spec fn counted_from(g: OcoView, ticks: Seq<TradeTick>, from: int) -> int
    decreases ticks.len(),
{
    if ticks.len() <= from || ticks.len() == 0 {
        0
    } else {
        counted_from(g, ticks.drop_last(), from) + if counts(
            after_ticks(g, ticks.drop_last()),
            ticks.last(),
        ) {
            1int
        } else {
            0
        }
    }
}

/// Every trade from a place on that counted when it came reaches the trigger.
pub open spec fn held_from(
    g: OcoView,
    ticks: Seq<TradeTick>,
    from: int,
    scenario: ValidatedScenario,
) -> bool {
    forall|i: int|
        from <= i < ticks.len() && counts(after_ticks(g, ticks.take(i)), #[trigger] ticks[i])
            ==> reaches(scenario, ticks[i].price)
}

/// What a confirmation under way says of the trades so far.
spec fn confirmation_is_earned(g: OcoView, ticks: Seq<TradeTick>, s: ScenarioState) -> bool {
    s.confirming_since is Some ==> exists|j: int|
        {
            &&& 0 <= j < ticks.len()
            &&& (#[trigger] ticks[j]).at == s.confirming_since->0
            &&& held_from(g, ticks, j, s.scenario)
            &&& counted_from(g, ticks, j) >= s.confirming_ticks
        }
}

proof fn lemma_held_longer(
    g: OcoView,
    ticks: Seq<TradeTick>,
    from: int,
    scenario: ValidatedScenario,
)
    requires
        0 <= from < ticks.len(),
        held_from(g, ticks.drop_last(), from, scenario),
        counts(after_ticks(g, ticks.drop_last()), ticks.last()) ==> reaches(
            scenario,
            ticks.last().price,
        ),
    ensures
        held_from(g, ticks, from, scenario),
{
    let init = ticks.drop_last();
    assert forall|i: int|
        from <= i < ticks.len() && counts(
            after_ticks(g, ticks.take(i)),
            #[trigger] ticks[i],
        ) implies reaches(scenario, ticks[i].price) by {
        if i < init.len() {
            assert(init.take(i) =~= ticks.take(i));
            assert(init[i] == ticks[i]);
        } else {
            assert(ticks.take(i) =~= init);
        }
    }
}

/// Whatever trades a fresh group is given, a confirmation that is under way began with one of them,
/// and every trade that counted since then reaches the trigger.
proof fn lemma_confirmations_are_earned(g: OcoView, ticks: Seq<TradeTick>)
    requires
        well_formed(g),
        forall|i: int|
            0 <= i < g.scenarios.len() ==> (#[trigger] g.scenarios[i]).confirming_since is None,
    ensures
        well_formed(after_ticks(g, ticks)),
        after_ticks(g, ticks).scenarios.len() == g.scenarios.len(),
        forall|i: int|
            0 <= i < g.scenarios.len() ==> confirmation_is_earned(
                g,
                ticks,
                #[trigger] after_ticks(g, ticks).scenarios[i],
            ),
    decreases ticks.len(),
{
    if ticks.len() > 0 {
        let init = ticks.drop_last();
        let tick = ticks.last();
        lemma_confirmations_are_earned(g, init);
        let h = after_ticks(g, init);
        let n = after_ticks(g, ticks);
        tick_keeps_well_formed(h, tick);
        lemma_first_where_bounds(h.scenarios, |s: ScenarioState| s.won_by(tick));
        assert(n.scenarios.len() == g.scenarios.len());
        assert forall|i: int| 0 <= i < g.scenarios.len() implies confirmation_is_earned(
            g,
            ticks,
            #[trigger] n.scenarios[i],
        ) by {
            let s = h.scenarios[i];
            let t = n.scenarios[i];
            if t.confirming_since is Some {
                assert(confirmation_is_earned(g, init, s));
                report_tells_of_change(h, tick);
                if counts(h, tick) {
                    if n.winner is None {
                        trade_moves_each_scenario(h, tick, i);
                    }
                } else if tick.at >= h.expires_at {
                    if h.winner is None && waits(s) {
                        expiry_ends_what_waits(h, tick, i);
                    }
                    assert(t.confirming_since == s.confirming_since);
                    assert(s.confirming_since is Some ==> waits(s));
                }
                if s.confirming_since is Some {
                    let j = choose|j: int|
                        {
                            &&& 0 <= j < init.len()
                            &&& (#[trigger] init[j]).at == s.confirming_since->0
                            &&& held_from(g, init, j, s.scenario)
                            &&& counted_from(g, init, j) >= s.confirming_ticks
                        };
                    lemma_held_longer(g, ticks, j, s.scenario);
                    assert(ticks[j] == init[j]);
                } else {
                    let j = init.len() as int;
                    assert(held_from(g, init, j, s.scenario));
                    lemma_held_longer(g, ticks, j, s.scenario);
                    assert(counted_from(g, init, j) == 0);
                    assert(ticks[j] == tick);
                }
            }
        }
    }
}

/// Of all the trades that a fresh group is given, one triggers a scenario only where, from a trade
/// that came at least three seconds before it, every trade that counted reaches the trigger, this one
/// too, and there were three of them before it.
pub proof fn trigger_was_held_throughout(g: OcoView, ticks: Seq<TradeTick>, tick: TradeTick)
    requires
        well_formed(g),
        forall|i: int|
            0 <= i < g.scenarios.len() ==> (#[trigger] g.scenarios[i]).confirming_since is None,
        after_ticks(g, ticks).tick_outcome(tick) is Triggered,
    ensures
        ({
            let won = after_ticks(g, ticks).tick_outcome(tick)->Triggered_0.scenario;
            &&& counts(after_ticks(g, ticks), tick)
            &&& reaches(won, tick.price)
            &&& exists|j: int|
                {
                    &&& 0 <= j < ticks.len()
                    &&& (#[trigger] ticks[j]).at + 3_000_000_000 <= tick.at
                    &&& held_from(g, ticks, j, won)
                    &&& counted_from(g, ticks, j) >= 3
                }
        }),
{
    let h = after_ticks(g, ticks);
    lemma_confirmations_are_earned(g, ticks);
    if tick.at >= h.expires_at {
        expiry_enters_nothing(h, tick);
    }
    report_tells_of_change(h, tick);
    assert(counts(h, tick));
    trade_triggers_what_it_confirms(h, tick);
    lemma_first_where_bounds(h.scenarios, |s: ScenarioState| s.won_by(tick));
    let k = h.winner_index(tick);
    let s = h.scenarios[k];
    assert(s.won_by(tick));
    assert(confirmation_is_earned(g, ticks, s));
    let j = choose|j: int|
        {
            &&& 0 <= j < ticks.len()
            &&& (#[trigger] ticks[j]).at == s.confirming_since->0
            &&& held_from(g, ticks, j, s.scenario)
            &&& counted_from(g, ticks, j) >= s.confirming_ticks
        };
    assert(ticks[j].at + 3_000_000_000 <= tick.at);
}

/// A scenario that validation keeps is the model's own, bets on the right side of the share's price,
/// stands on the share's tick no nearer to that price than asked for, and aims at a tenth of a percent
/// from two of them to twenty.
pub proof fn accepted_scenario_is_sound(snapshot_price: u64, scenario: ModelScenario)
    requires
        acceptance(snapshot_price, scenario) is Some,
    ensures
        ({
            let kept = acceptance(snapshot_price, scenario)->0;
            &&& kept.product == scenario.product
            &&& kept.setup == scenario.setup
            &&& 200_000_000 <= kept.target_return_pct <= 2_000_000_000
            &&& kept.target_return_pct as int % 100_000_000 == 0
            &&& scenario.target_return_pct is Some
            &&& -1 <= kept.target_return_pct - scenario.target_return_pct->0 <= 1
            &&& kept.trigger_price as int % band_tick(scenario.trigger_price as int) == 0
            &&& scenario.product == ProductKind::Leverage ==> snapshot_price < scenario.trigger_price
                <= kept.trigger_price < scenario.trigger_price + band_tick(
                scenario.trigger_price as int,
            )
            &&& scenario.product == ProductKind::Inverse ==> kept.trigger_price
                <= scenario.trigger_price < kept.trigger_price + band_tick(
                scenario.trigger_price as int,
            ) && 0 < scenario.trigger_price < snapshot_price
        }),
{
    aligned_trigger_is_conservative(scenario.trigger_price, scenario.product);
    let t = scenario.target_return_pct->0;
    let k = choose|k: int| -1 <= t - #[trigger] (k * TARGET_RETURN_STEP_PCT) <= 1;
    lemma_floor_to(t + 50_000_000, 100_000_000);
    let f = rounded_target(t);
    assert(f == 100_000_000 * k);
}

/// Validation keeps a scenario or says why not: it has no price, it is on the wrong side of the
/// share's price or at it, its target is none of the allowed ones, or no tick is left above it.
pub proof fn scenario_is_kept_or_refused(snapshot_price: u64, scenario: ModelScenario)
    ensures
        acceptance(snapshot_price, scenario) is None <==> refusal(snapshot_price, scenario) is Some,
        refusal(snapshot_price, scenario) matches Some(refused) ==> {
            &&& refused.product == scenario.product
            &&& refused.trigger_price == scenario.trigger_price
            &&& refused.target_return_pct == scenario.target_return_pct
            &&& refused.status == ScenarioStatus::Invalid
            &&& refused.reason == ScenarioInvalidReason::InvalidTriggerPrice
                ==> scenario.trigger_price == 0 || (scenario.product == ProductKind::Leverage
                && scenario.trigger_price + 1_000 > u64::MAX)
            &&& refused.reason == ScenarioInvalidReason::WrongDirection <==> 0
                < scenario.trigger_price && !(scenario.product == ProductKind::Leverage
                && scenario.trigger_price > snapshot_price) && !(scenario.product
                == ProductKind::Inverse && scenario.trigger_price < snapshot_price)
            &&& refused.reason == ScenarioInvalidReason::InvalidTargetReturn ==> {
                ||| scenario.target_return_pct is None
                ||| scenario.target_return_pct->0 < 200_000_000
                ||| scenario.target_return_pct->0 > 2_000_000_000
                ||| 1 < scenario.target_return_pct->0 as int % 100_000_000 < 99_999_999
            }
        },
{
    aligned_trigger_is_conservative(scenario.trigger_price, scenario.product);
    if scenario.target_return_pct is Some {
        let t = scenario.target_return_pct->0 as int;
        let m = t % 100_000_000;
        let k = t / 100_000_000;
        assert(t == 100_000_000 * k + m);
        if m <= 1 {
            assert(-1 <= t - k * TARGET_RETURN_STEP_PCT <= 1);
        }
        if m == 99_999_999 {
            assert(-1 <= t - (k + 1) * TARGET_RETURN_STEP_PCT <= 1);
        }
    }
}

/// A scenario starts as the first seed of its product says, with nothing confirmed; without one it is
/// armed.
pub proof fn scenario_starts_as_seeded(scenario: ValidatedScenario, seeds: Seq<ScenarioSeed>, i: int)
    ensures
        seeded(scenario, seeds).scenario == scenario,
        seeded(scenario, seeds).confirming_since is None && seeded(scenario, seeds).confirming_ticks
            == 0,
        0 <= i < seeds.len() && seeds[i].product == scenario.product && (forall|k: int|
            0 <= k < i ==> (#[trigger] seeds[k]).product != scenario.product) ==> seeded(
            scenario,
            seeds,
        ).status == seeds[i].status && seeded(scenario, seeds).reference_observed_at
            == seeds[i].reference_observed_at,
        (forall|k: int| 0 <= k < seeds.len() ==> (#[trigger] seeds[k]).product != scenario.product)
            ==> seeded(scenario, seeds).status == ScenarioStatus::Armed && seeded(
            scenario,
            seeds,
        ).reference_observed_at is None,
{
    let p = |seed: ScenarioSeed| seed.product == scenario.product;
    if 0 <= i < seeds.len() && seeds[i].product == scenario.product && (forall|k: int|
        0 <= k < i ==> (#[trigger] seeds[k]).product != scenario.product) {
        lemma_first_where(seeds, p, i);
    }
    if forall|k: int| 0 <= k < seeds.len() ==> (#[trigger] seeds[k]).product != scenario.product {
        lemma_first_where(seeds, p, seeds.len() as int);
    }
}

/// A decision is refused as a whole without a price, with more than two scenarios and with two of one
/// product; a group is armed from one or two scenarios with an expiry ahead.
pub proof fn decision_is_refused_as_a_whole(
    price: u64,
    scenarios: Seq<ModelScenario>,
    valid: Seq<ValidatedScenario>,
    armed_at: Nanos,
    expires_at: Nanos,
)
    ensures
        decision_error(price, scenarios) is None <==> price > 0 && scenarios.len() <= 2 && (
        scenarios.len() == 2 ==> scenarios[0].product != scenarios[1].product),
        price == 0 ==> decision_error(price, scenarios) == Some(
            DecisionValidationError::InvalidSnapshotPrice,
        ),
        price > 0 && scenarios.len() == 2 && scenarios[0].product == scenarios[1].product
            ==> decision_error(price, scenarios) == Some(
            DecisionValidationError::DuplicateProduct(scenarios[1].product),
        ),
        arm_error(valid, armed_at, expires_at) is None <==> 1 <= valid.len() <= 2 && armed_at
            < expires_at,
        valid.len() == 0 ==> arm_error(valid, armed_at, expires_at) == Some(ArmError::NoScenarios),
        1 <= valid.len() <= 2 && expires_at <= armed_at ==> arm_error(valid, armed_at, expires_at)
            == Some(ArmError::InvalidExpiry),
{
}

/// A confirmation is shown with the time since it began, three seconds at most, and none where it has
/// not begun.
pub proof fn confirmation_is_shown_in_time(g: OcoView, i: int, now: Nanos)
    requires
        0 <= i < g.scenarios.len(),
        forall|k: int|
            0 <= k < i ==> (#[trigger] g.scenarios[k]).scenario.product
                != g.scenarios[i].scenario.product,
    ensures
        ({
            let span = g.confirming_span(g.scenarios[i].scenario.product, now);
            &&& g.scenarios[i].confirming_since is None ==> span == 0
            &&& g.scenarios[i].confirming_since matches Some(since) ==> {
                &&& since <= now <= since + 3_000_000_000 ==> span == now - since
                &&& now > since + 3_000_000_000 ==> span == 3_000_000_000
                &&& now < since ==> span == 0
            }
        }),
{
    let product = g.scenarios[i].scenario.product;
    lemma_first_where(g.scenarios, |s: ScenarioState| s.scenario.product == product, i);
}

} // verus!
