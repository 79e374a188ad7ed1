//! The ledger's kinds and states, and the words in which they are stored.

use vstd::prelude::*;

use crate::text::same;

verus! {

/// Who decides on real orders.
#[derive(Debug, Clone, Copy, PartialEq, Eq, Structural)]
pub enum LedgerControlMode {
    Manual,
    Auto,
    Shadow,
}

impl LedgerControlMode {
    /// The word that stands for it.
    pub open spec fn stored(self) -> Seq<char> {
        match self {
            LedgerControlMode::Manual => "manual"@,
            LedgerControlMode::Auto => "auto"@,
            LedgerControlMode::Shadow => "shadow"@,
        }
    }

    /// What a word stands for.
    pub open spec fn of_stored(word: Seq<char>) -> Option<Self> {
        if word == "manual"@ {
            Some(LedgerControlMode::Manual)
        } else if word == "auto"@ {
            Some(LedgerControlMode::Auto)
        } else if word == "shadow"@ {
            Some(LedgerControlMode::Shadow)
        } else {
            None
        }
    }

    pub fn as_str(self) -> (word: &'static str)
        ensures
            word@ == self.stored(),
    {
        match self {
            LedgerControlMode::Manual => "manual",
            LedgerControlMode::Auto => "auto",
            LedgerControlMode::Shadow => "shadow",
        }
    }

    pub fn from_stored(value: &str) -> (kind: Option<Self>)
        ensures
            kind == Self::of_stored(value@),
    {
        if same(value, "manual") {
            Some(LedgerControlMode::Manual)
        } else if same(value, "auto") {
            Some(LedgerControlMode::Auto)
        } else if same(value, "shadow") {
            Some(LedgerControlMode::Shadow)
        } else {
            None
        }
    }

    /// What is stored reads back.
    pub proof fn stored_reads_back(self)
        ensures
            Self::of_stored(self.stored()) == Some(self),
    {
        reveal_strlit("manual");
        assert("manual"@.len() == 6);
        reveal_strlit("auto");
        assert("auto"@.len() == 4);
        reveal_strlit("shadow");
        assert("shadow"@.len() == 6);
        assert("shadow"@[0] != "manual"@[0]);
    }
}

/// Whether orders reach the exchange.
#[derive(Debug, Clone, Copy, PartialEq, Eq, Structural)]
pub enum LedgerExecutionKind {
    Real,
    Shadow,
}

impl LedgerExecutionKind {
    /// The word that stands for it.
    pub open spec fn stored(self) -> Seq<char> {
        match self {
            LedgerExecutionKind::Real => "real"@,
            LedgerExecutionKind::Shadow => "shadow"@,
        }
    }

    /// What a word stands for.
    pub open spec fn of_stored(word: Seq<char>) -> Option<Self> {
        if word == "real"@ {
            Some(LedgerExecutionKind::Real)
        } else if word == "shadow"@ {
            Some(LedgerExecutionKind::Shadow)
        } else {
            None
        }
    }

    pub fn as_str(self) -> (word: &'static str)
        ensures
            word@ == self.stored(),
    {
        match self {
            LedgerExecutionKind::Real => "real",
            LedgerExecutionKind::Shadow => "shadow",
        }
    }

    pub fn from_stored(value: &str) -> (kind: Option<Self>)
        ensures
            kind == Self::of_stored(value@),
    {
        if same(value, "real") {
            Some(LedgerExecutionKind::Real)
        } else if same(value, "shadow") {
            Some(LedgerExecutionKind::Shadow)
        } else {
            None
        }
    }

    /// What is stored reads back.
    pub proof fn stored_reads_back(self)
        ensures
            Self::of_stored(self.stored()) == Some(self),
    {
        reveal_strlit("real");
        assert("real"@.len() == 4);
        reveal_strlit("shadow");
        assert("shadow"@.len() == 6);
    }
}

/// The two ETFs that a decision can pick.
#[derive(Debug, Clone, Copy, PartialEq, Eq, Structural)]
pub enum LedgerProductKind {
    Leverage,
    Inverse,
}

impl LedgerProductKind {
    /// The word that stands for it.
    pub open spec fn stored(self) -> Seq<char> {
        match self {
            LedgerProductKind::Leverage => "leverage"@,
            LedgerProductKind::Inverse => "inverse"@,
        }
    }

    /// What a word stands for.
    pub open spec fn of_stored(word: Seq<char>) -> Option<Self> {
        if word == "leverage"@ {
            Some(LedgerProductKind::Leverage)
        } else if word == "inverse"@ {
            Some(LedgerProductKind::Inverse)
        } else {
            None
        }
    }

    pub fn as_str(self) -> (word: &'static str)
        ensures
            word@ == self.stored(),
    {
        match self {
            LedgerProductKind::Leverage => "leverage",
            LedgerProductKind::Inverse => "inverse",
        }
    }

    pub fn from_stored(value: &str) -> (kind: Option<Self>)
        ensures
            kind == Self::of_stored(value@),
    {
        if same(value, "leverage") {
            Some(LedgerProductKind::Leverage)
        } else if same(value, "inverse") {
            Some(LedgerProductKind::Inverse)
        } else {
            None
        }
    }

    /// What is stored reads back.
    pub proof fn stored_reads_back(self)
        ensures
            Self::of_stored(self.stored()) == Some(self),
    {
        reveal_strlit("leverage");
        assert("leverage"@.len() == 8);
        reveal_strlit("inverse");
        assert("inverse"@.len() == 7);
    }
}

/// The market's state on the longer intervals, as the model reads it.
#[derive(Debug, Clone, Copy, PartialEq, Eq, Structural)]
pub enum LedgerMarketRegime {
    Uptrend,
    Downtrend,
    Range,
    Transition,
    Unclear,
}

impl LedgerMarketRegime {
    /// The word that stands for it.
    pub open spec fn stored(self) -> Seq<char> {
        match self {
            LedgerMarketRegime::Uptrend => "uptrend"@,
            LedgerMarketRegime::Downtrend => "downtrend"@,
            LedgerMarketRegime::Range => "range"@,
            LedgerMarketRegime::Transition => "transition"@,
            LedgerMarketRegime::Unclear => "unclear"@,
        }
    }

    /// What a word stands for.
    pub open spec fn of_stored(word: Seq<char>) -> Option<Self> {
        if word == "uptrend"@ {
            Some(LedgerMarketRegime::Uptrend)
        } else if word == "downtrend"@ {
            Some(LedgerMarketRegime::Downtrend)
        } else if word == "range"@ {
            Some(LedgerMarketRegime::Range)
        } else if word == "transition"@ {
            Some(LedgerMarketRegime::Transition)
        } else if word == "unclear"@ {
            Some(LedgerMarketRegime::Unclear)
        } else {
            None
        }
    }

    pub fn as_str(self) -> (word: &'static str)
        ensures
            word@ == self.stored(),
    {
        match self {
            LedgerMarketRegime::Uptrend => "uptrend",
            LedgerMarketRegime::Downtrend => "downtrend",
            LedgerMarketRegime::Range => "range",
            LedgerMarketRegime::Transition => "transition",
            LedgerMarketRegime::Unclear => "unclear",
        }
    }

    pub fn from_stored(value: &str) -> (kind: Option<Self>)
        ensures
            kind == Self::of_stored(value@),
    {
        if same(value, "uptrend") {
            Some(LedgerMarketRegime::Uptrend)
        } else if same(value, "downtrend") {
            Some(LedgerMarketRegime::Downtrend)
        } else if same(value, "range") {
            Some(LedgerMarketRegime::Range)
        } else if same(value, "transition") {
            Some(LedgerMarketRegime::Transition)
        } else if same(value, "unclear") {
            Some(LedgerMarketRegime::Unclear)
        } else {
            None
        }
    }

    /// What is stored reads back.
    pub proof fn stored_reads_back(self)
        ensures
            Self::of_stored(self.stored()) == Some(self),
    {
        reveal_strlit("uptrend");
        assert("uptrend"@.len() == 7);
        reveal_strlit("downtrend");
        assert("downtrend"@.len() == 9);
        reveal_strlit("range");
        assert("range"@.len() == 5);
        reveal_strlit("transition");
        assert("transition"@.len() == 10);
        reveal_strlit("unclear");
        assert("unclear"@.len() == 7);
        assert("unclear"@[1] != "uptrend"@[1]);
    }
}

/// Whether an entry follows the trend or turns at a level.
#[derive(Debug, Clone, Copy, PartialEq, Eq, Structural)]
pub enum LedgerSetupType {
    Continuation,
    Reversal,
}

impl LedgerSetupType {
    /// The word that stands for it.
    pub open spec fn stored(self) -> Seq<char> {
        match self {
            LedgerSetupType::Continuation => "continuation"@,
            LedgerSetupType::Reversal => "reversal"@,
        }
    }

    /// What a word stands for.
    pub open spec fn of_stored(word: Seq<char>) -> Option<Self> {
        if word == "continuation"@ {
            Some(LedgerSetupType::Continuation)
        } else if word == "reversal"@ {
            Some(LedgerSetupType::Reversal)
        } else {
            None
        }
    }

    pub fn as_str(self) -> (word: &'static str)
        ensures
            word@ == self.stored(),
    {
        match self {
            LedgerSetupType::Continuation => "continuation",
            LedgerSetupType::Reversal => "reversal",
        }
    }

    pub fn from_stored(value: &str) -> (kind: Option<Self>)
        ensures
            kind == Self::of_stored(value@),
    {
        if same(value, "continuation") {
            Some(LedgerSetupType::Continuation)
        } else if same(value, "reversal") {
            Some(LedgerSetupType::Reversal)
        } else {
            None
        }
    }

    /// What is stored reads back.
    pub proof fn stored_reads_back(self)
        ensures
            Self::of_stored(self.stored()) == Some(self),
    {
        reveal_strlit("continuation");
        assert("continuation"@.len() == 12);
        reveal_strlit("reversal");
        assert("reversal"@.len() == 8);
    }
}

/// Who an order comes from.
#[derive(Debug, Clone, Copy, PartialEq, Eq, Structural)]
pub enum LedgerOrigin {
    Manual,
    Auto,
    Shadow,
    AutoHandoff,
    External,
}

impl LedgerOrigin {
    /// The word that stands for it.
    pub open spec fn stored(self) -> Seq<char> {
        match self {
            LedgerOrigin::Manual => "manual"@,
            LedgerOrigin::Auto => "auto"@,
            LedgerOrigin::Shadow => "shadow"@,
            LedgerOrigin::AutoHandoff => "auto_handoff"@,
            LedgerOrigin::External => "external"@,
        }
    }

    /// What a word stands for.
    pub open spec fn of_stored(word: Seq<char>) -> Option<Self> {
        if word == "manual"@ {
            Some(LedgerOrigin::Manual)
        } else if word == "auto"@ {
            Some(LedgerOrigin::Auto)
        } else if word == "shadow"@ {
            Some(LedgerOrigin::Shadow)
        } else if word == "auto_handoff"@ {
            Some(LedgerOrigin::AutoHandoff)
        } else if word == "external"@ {
            Some(LedgerOrigin::External)
        } else {
            None
        }
    }

    pub fn as_str(self) -> (word: &'static str)
        ensures
            word@ == self.stored(),
    {
        match self {
            LedgerOrigin::Manual => "manual",
            LedgerOrigin::Auto => "auto",
            LedgerOrigin::Shadow => "shadow",
            LedgerOrigin::AutoHandoff => "auto_handoff",
            LedgerOrigin::External => "external",
        }
    }

    pub fn from_stored(value: &str) -> (kind: Option<Self>)
        ensures
            kind == Self::of_stored(value@),
    {
        if same(value, "manual") {
            Some(LedgerOrigin::Manual)
        } else if same(value, "auto") {
            Some(LedgerOrigin::Auto)
        } else if same(value, "shadow") {
            Some(LedgerOrigin::Shadow)
        } else if same(value, "auto_handoff") {
            Some(LedgerOrigin::AutoHandoff)
        } else if same(value, "external") {
            Some(LedgerOrigin::External)
        } else {
            None
        }
    }

    /// What is stored reads back.
    pub proof fn stored_reads_back(self)
        ensures
            Self::of_stored(self.stored()) == Some(self),
    {
        reveal_strlit("manual");
        assert("manual"@.len() == 6);
        reveal_strlit("auto");
        assert("auto"@.len() == 4);
        reveal_strlit("shadow");
        assert("shadow"@.len() == 6);
        reveal_strlit("auto_handoff");
        assert("auto_handoff"@.len() == 12);
        reveal_strlit("external");
        assert("external"@.len() == 8);
        assert("shadow"@[0] != "manual"@[0]);
    }
}

#[derive(Debug, Clone, Copy, PartialEq, Eq, Structural)]
pub enum LedgerSide {
    Buy,
    Sell,
}

impl LedgerSide {
    /// The word that stands for it.
    pub open spec fn stored(self) -> Seq<char> {
        match self {
            LedgerSide::Buy => "buy"@,
            LedgerSide::Sell => "sell"@,
        }
    }

    /// What a word stands for.
    pub open spec fn of_stored(word: Seq<char>) -> Option<Self> {
        if word == "buy"@ {
            Some(LedgerSide::Buy)
        } else if word == "sell"@ {
            Some(LedgerSide::Sell)
        } else {
            None
        }
    }

    pub fn as_str(self) -> (word: &'static str)
        ensures
            word@ == self.stored(),
    {
        match self {
            LedgerSide::Buy => "buy",
            LedgerSide::Sell => "sell",
        }
    }

    pub fn from_stored(value: &str) -> (kind: Option<Self>)
        ensures
            kind == Self::of_stored(value@),
    {
        if same(value, "buy") {
            Some(LedgerSide::Buy)
        } else if same(value, "sell") {
            Some(LedgerSide::Sell)
        } else {
            None
        }
    }

    /// What is stored reads back.
    pub proof fn stored_reads_back(self)
        ensures
            Self::of_stored(self.stored()) == Some(self),
    {
        reveal_strlit("buy");
        assert("buy"@.len() == 3);
        reveal_strlit("sell");
        assert("sell"@.len() == 4);
    }
}

#[derive(Debug, Clone, Copy, PartialEq, Eq, Structural)]
pub enum LedgerSessionStatus {
    Active,
    Closed,
    Interrupted,
}

impl LedgerSessionStatus {
    /// The word that stands for it.
    pub open spec fn stored(self) -> Seq<char> {
        match self {
            LedgerSessionStatus::Active => "active"@,
            LedgerSessionStatus::Closed => "closed"@,
            LedgerSessionStatus::Interrupted => "interrupted"@,
        }
    }

    /// What a word stands for.
    pub open spec fn of_stored(word: Seq<char>) -> Option<Self> {
        if word == "active"@ {
            Some(LedgerSessionStatus::Active)
        } else if word == "closed"@ {
            Some(LedgerSessionStatus::Closed)
        } else if word == "interrupted"@ {
            Some(LedgerSessionStatus::Interrupted)
        } else {
            None
        }
    }

    pub fn as_str(self) -> (word: &'static str)
        ensures
            word@ == self.stored(),
    {
        match self {
            LedgerSessionStatus::Active => "active",
            LedgerSessionStatus::Closed => "closed",
            LedgerSessionStatus::Interrupted => "interrupted",
        }
    }

    pub fn from_stored(value: &str) -> (kind: Option<Self>)
        ensures
            kind == Self::of_stored(value@),
    {
        if same(value, "active") {
            Some(LedgerSessionStatus::Active)
        } else if same(value, "closed") {
            Some(LedgerSessionStatus::Closed)
        } else if same(value, "interrupted") {
            Some(LedgerSessionStatus::Interrupted)
        } else {
            None
        }
    }

    /// What is stored reads back.
    pub proof fn stored_reads_back(self)
        ensures
            Self::of_stored(self.stored()) == Some(self),
    {
        reveal_strlit("active");
        assert("active"@.len() == 6);
        reveal_strlit("closed");
        assert("closed"@.len() == 6);
        reveal_strlit("interrupted");
        assert("interrupted"@.len() == 11);
        assert("closed"@[0] != "active"@[0]);
    }
}

#[derive(Debug, Clone, Copy, PartialEq, Eq, Structural)]
pub enum LedgerDecisionStatus {
    Armed,
    Skipped,
    Triggered,
    Expired,
    Replaced,
    Missed,
    Invalidated,
    Invalid,
    Error,
    Discarded,
}

impl LedgerDecisionStatus {
    /// The word that stands for it.
    pub open spec fn stored(self) -> Seq<char> {
        match self {
            LedgerDecisionStatus::Armed => "armed"@,
            LedgerDecisionStatus::Skipped => "skipped"@,
            LedgerDecisionStatus::Triggered => "triggered"@,
            LedgerDecisionStatus::Expired => "expired"@,
            LedgerDecisionStatus::Replaced => "replaced"@,
            LedgerDecisionStatus::Missed => "missed"@,
            LedgerDecisionStatus::Invalidated => "invalidated"@,
            LedgerDecisionStatus::Invalid => "invalid"@,
            LedgerDecisionStatus::Error => "error"@,
            LedgerDecisionStatus::Discarded => "discarded"@,
        }
    }

    /// What a word stands for.
    pub open spec fn of_stored(word: Seq<char>) -> Option<Self> {
        if word == "armed"@ {
            Some(LedgerDecisionStatus::Armed)
        } else if word == "skipped"@ {
            Some(LedgerDecisionStatus::Skipped)
        } else if word == "triggered"@ {
            Some(LedgerDecisionStatus::Triggered)
        } else if word == "expired"@ {
            Some(LedgerDecisionStatus::Expired)
        } else if word == "replaced"@ {
            Some(LedgerDecisionStatus::Replaced)
        } else if word == "missed"@ {
            Some(LedgerDecisionStatus::Missed)
        } else if word == "invalidated"@ {
            Some(LedgerDecisionStatus::Invalidated)
        } else if word == "invalid"@ {
            Some(LedgerDecisionStatus::Invalid)
        } else if word == "error"@ {
            Some(LedgerDecisionStatus::Error)
        } else if word == "discarded"@ {
            Some(LedgerDecisionStatus::Discarded)
        } else {
            None
        }
    }

    pub fn as_str(self) -> (word: &'static str)
        ensures
            word@ == self.stored(),
    {
        match self {
            LedgerDecisionStatus::Armed => "armed",
            LedgerDecisionStatus::Skipped => "skipped",
            LedgerDecisionStatus::Triggered => "triggered",
            LedgerDecisionStatus::Expired => "expired",
            LedgerDecisionStatus::Replaced => "replaced",
            LedgerDecisionStatus::Missed => "missed",
            LedgerDecisionStatus::Invalidated => "invalidated",
            LedgerDecisionStatus::Invalid => "invalid",
            LedgerDecisionStatus::Error => "error",
            LedgerDecisionStatus::Discarded => "discarded",
        }
    }

    pub fn from_stored(value: &str) -> (kind: Option<Self>)
        ensures
            kind == Self::of_stored(value@),
    {
        if same(value, "armed") {
            Some(LedgerDecisionStatus::Armed)
        } else if same(value, "skipped") {
            Some(LedgerDecisionStatus::Skipped)
        } else if same(value, "triggered") {
            Some(LedgerDecisionStatus::Triggered)
        } else if same(value, "expired") {
            Some(LedgerDecisionStatus::Expired)
        } else if same(value, "replaced") {
            Some(LedgerDecisionStatus::Replaced)
        } else if same(value, "missed") {
            Some(LedgerDecisionStatus::Missed)
        } else if same(value, "invalidated") {
            Some(LedgerDecisionStatus::Invalidated)
        } else if same(value, "invalid") {
            Some(LedgerDecisionStatus::Invalid)
        } else if same(value, "error") {
            Some(LedgerDecisionStatus::Error)
        } else if same(value, "discarded") {
            Some(LedgerDecisionStatus::Discarded)
        } else {
            None
        }
    }

    /// What is stored reads back.
    pub proof fn stored_reads_back(self)
        ensures
            Self::of_stored(self.stored()) == Some(self),
    {
        reveal_strlit("armed");
        assert("armed"@.len() == 5);
        reveal_strlit("skipped");
        assert("skipped"@.len() == 7);
        reveal_strlit("triggered");
        assert("triggered"@.len() == 9);
        reveal_strlit("expired");
        assert("expired"@.len() == 7);
        reveal_strlit("replaced");
        assert("replaced"@.len() == 8);
        reveal_strlit("missed");
        assert("missed"@.len() == 6);
        reveal_strlit("invalidated");
        assert("invalidated"@.len() == 11);
        reveal_strlit("invalid");
        assert("invalid"@.len() == 7);
        reveal_strlit("error");
        assert("error"@.len() == 5);
        reveal_strlit("discarded");
        assert("discarded"@.len() == 9);
        assert("expired"@[0] != "skipped"@[0]);
        assert("invalid"@[0] != "skipped"@[0]);
        assert("invalid"@[0] != "expired"@[0]);
        assert("error"@[0] != "armed"@[0]);
        assert("discarded"@[0] != "triggered"@[0]);
    }
}

#[derive(Debug, Clone, Copy, PartialEq, Eq, Structural)]
pub enum LedgerScenarioStatus {
    Armed,
    Confirming,
    Triggered,
    Expired,
    Replaced,
    CancelledByOco,
    Missed,
    Invalidated,
    Invalid,
}

impl LedgerScenarioStatus {
    /// The word that stands for it.
    pub open spec fn stored(self) -> Seq<char> {
        match self {
            LedgerScenarioStatus::Armed => "armed"@,
            LedgerScenarioStatus::Confirming => "confirming"@,
            LedgerScenarioStatus::Triggered => "triggered"@,
            LedgerScenarioStatus::Expired => "expired"@,
            LedgerScenarioStatus::Replaced => "replaced"@,
            LedgerScenarioStatus::CancelledByOco => "cancelled_by_oco"@,
            LedgerScenarioStatus::Missed => "missed"@,
            LedgerScenarioStatus::Invalidated => "invalidated"@,
            LedgerScenarioStatus::Invalid => "invalid"@,
        }
    }

    /// What a word stands for.
    pub open spec fn of_stored(word: Seq<char>) -> Option<Self> {
        if word == "armed"@ {
            Some(LedgerScenarioStatus::Armed)
        } else if word == "confirming"@ {
            Some(LedgerScenarioStatus::Confirming)
        } else if word == "triggered"@ {
            Some(LedgerScenarioStatus::Triggered)
        } else if word == "expired"@ {
            Some(LedgerScenarioStatus::Expired)
        } else if word == "replaced"@ {
            Some(LedgerScenarioStatus::Replaced)
        } else if word == "cancelled_by_oco"@ {
            Some(LedgerScenarioStatus::CancelledByOco)
        } else if word == "missed"@ {
            Some(LedgerScenarioStatus::Missed)
        } else if word == "invalidated"@ {
            Some(LedgerScenarioStatus::Invalidated)
        } else if word == "invalid"@ {
            Some(LedgerScenarioStatus::Invalid)
        } else {
            None
        }
    }

    pub fn as_str(self) -> (word: &'static str)
        ensures
            word@ == self.stored(),
    {
        match self {
            LedgerScenarioStatus::Armed => "armed",
            LedgerScenarioStatus::Confirming => "confirming",
            LedgerScenarioStatus::Triggered => "triggered",
            LedgerScenarioStatus::Expired => "expired",
            LedgerScenarioStatus::Replaced => "replaced",
            LedgerScenarioStatus::CancelledByOco => "cancelled_by_oco",
            LedgerScenarioStatus::Missed => "missed",
            LedgerScenarioStatus::Invalidated => "invalidated",
            LedgerScenarioStatus::Invalid => "invalid",
        }
    }

    pub fn from_stored(value: &str) -> (kind: Option<Self>)
        ensures
            kind == Self::of_stored(value@),
    {
        if same(value, "armed") {
            Some(LedgerScenarioStatus::Armed)
        } else if same(value, "confirming") {
            Some(LedgerScenarioStatus::Confirming)
        } else if same(value, "triggered") {
            Some(LedgerScenarioStatus::Triggered)
        } else if same(value, "expired") {
            Some(LedgerScenarioStatus::Expired)
        } else if same(value, "replaced") {
            Some(LedgerScenarioStatus::Replaced)
        } else if same(value, "cancelled_by_oco") {
            Some(LedgerScenarioStatus::CancelledByOco)
        } else if same(value, "missed") {
            Some(LedgerScenarioStatus::Missed)
        } else if same(value, "invalidated") {
            Some(LedgerScenarioStatus::Invalidated)
        } else if same(value, "invalid") {
            Some(LedgerScenarioStatus::Invalid)
        } else {
            None
        }
    }

    /// What is stored reads back.
    pub proof fn stored_reads_back(self)
        ensures
            Self::of_stored(self.stored()) == Some(self),
    {
        reveal_strlit("armed");
        assert("armed"@.len() == 5);
        reveal_strlit("confirming");
        assert("confirming"@.len() == 10);
        reveal_strlit("triggered");
        assert("triggered"@.len() == 9);
        reveal_strlit("expired");
        assert("expired"@.len() == 7);
        reveal_strlit("replaced");
        assert("replaced"@.len() == 8);
        reveal_strlit("cancelled_by_oco");
        assert("cancelled_by_oco"@.len() == 16);
        reveal_strlit("missed");
        assert("missed"@.len() == 6);
        reveal_strlit("invalidated");
        assert("invalidated"@.len() == 11);
        reveal_strlit("invalid");
        assert("invalid"@.len() == 7);
        assert("invalid"@[0] != "expired"@[0]);
    }
}

#[derive(Debug, Clone, Copy, PartialEq, Eq, Structural)]
pub enum LedgerOrderType {
    Market,
    Limit,
    IocLimit,
    Cancel,
    Virtual,
}

impl LedgerOrderType {
    /// The word that stands for it.
    pub open spec fn stored(self) -> Seq<char> {
        match self {
            LedgerOrderType::Market => "market"@,
            LedgerOrderType::Limit => "limit"@,
            LedgerOrderType::IocLimit => "ioc_limit"@,
            LedgerOrderType::Cancel => "cancel"@,
            LedgerOrderType::Virtual => "virtual"@,
        }
    }

    /// What a word stands for.
    pub open spec fn of_stored(word: Seq<char>) -> Option<Self> {
        if word == "market"@ {
            Some(LedgerOrderType::Market)
        } else if word == "limit"@ {
            Some(LedgerOrderType::Limit)
        } else if word == "ioc_limit"@ {
            Some(LedgerOrderType::IocLimit)
        } else if word == "cancel"@ {
            Some(LedgerOrderType::Cancel)
        } else if word == "virtual"@ {
            Some(LedgerOrderType::Virtual)
        } else {
            None
        }
    }

    pub fn as_str(self) -> (word: &'static str)
        ensures
            word@ == self.stored(),
    {
        match self {
            LedgerOrderType::Market => "market",
            LedgerOrderType::Limit => "limit",
            LedgerOrderType::IocLimit => "ioc_limit",
            LedgerOrderType::Cancel => "cancel",
            LedgerOrderType::Virtual => "virtual",
        }
    }

    pub fn from_stored(value: &str) -> (kind: Option<Self>)
        ensures
            kind == Self::of_stored(value@),
    {
        if same(value, "market") {
            Some(LedgerOrderType::Market)
        } else if same(value, "limit") {
            Some(LedgerOrderType::Limit)
        } else if same(value, "ioc_limit") {
            Some(LedgerOrderType::IocLimit)
        } else if same(value, "cancel") {
            Some(LedgerOrderType::Cancel)
        } else if same(value, "virtual") {
            Some(LedgerOrderType::Virtual)
        } else {
            None
        }
    }

    /// What is stored reads back.
    pub proof fn stored_reads_back(self)
        ensures
            Self::of_stored(self.stored()) == Some(self),
    {
        reveal_strlit("market");
        assert("market"@.len() == 6);
        reveal_strlit("limit");
        assert("limit"@.len() == 5);
        reveal_strlit("ioc_limit");
        assert("ioc_limit"@.len() == 9);
        reveal_strlit("cancel");
        assert("cancel"@.len() == 6);
        reveal_strlit("virtual");
        assert("virtual"@.len() == 7);
        assert("cancel"@[0] != "market"@[0]);
    }
}

#[derive(Debug, Clone, Copy, PartialEq, Eq, Structural)]
pub enum LedgerOrderStatus {
    Intent,
    Dispatching,
    Submitted,
    PartiallyFilled,
    Filled,
    CancelPending,
    Cancelled,
    Rejected,
    Unknown,
}

impl LedgerOrderStatus {
    /// The word that stands for it.
    pub open spec fn stored(self) -> Seq<char> {
        match self {
            LedgerOrderStatus::Intent => "intent"@,
            LedgerOrderStatus::Dispatching => "dispatching"@,
            LedgerOrderStatus::Submitted => "submitted"@,
            LedgerOrderStatus::PartiallyFilled => "partially_filled"@,
            LedgerOrderStatus::Filled => "filled"@,
            LedgerOrderStatus::CancelPending => "cancel_pending"@,
            LedgerOrderStatus::Cancelled => "cancelled"@,
            LedgerOrderStatus::Rejected => "rejected"@,
            LedgerOrderStatus::Unknown => "unknown"@,
        }
    }

    /// What a word stands for.
    pub open spec fn of_stored(word: Seq<char>) -> Option<Self> {
        if word == "intent"@ {
            Some(LedgerOrderStatus::Intent)
        } else if word == "dispatching"@ {
            Some(LedgerOrderStatus::Dispatching)
        } else if word == "submitted"@ {
            Some(LedgerOrderStatus::Submitted)
        } else if word == "partially_filled"@ {
            Some(LedgerOrderStatus::PartiallyFilled)
        } else if word == "filled"@ {
            Some(LedgerOrderStatus::Filled)
        } else if word == "cancel_pending"@ {
            Some(LedgerOrderStatus::CancelPending)
        } else if word == "cancelled"@ {
            Some(LedgerOrderStatus::Cancelled)
        } else if word == "rejected"@ {
            Some(LedgerOrderStatus::Rejected)
        } else if word == "unknown"@ {
            Some(LedgerOrderStatus::Unknown)
        } else {
            None
        }
    }

    pub fn as_str(self) -> (word: &'static str)
        ensures
            word@ == self.stored(),
    {
        match self {
            LedgerOrderStatus::Intent => "intent",
            LedgerOrderStatus::Dispatching => "dispatching",
            LedgerOrderStatus::Submitted => "submitted",
            LedgerOrderStatus::PartiallyFilled => "partially_filled",
            LedgerOrderStatus::Filled => "filled",
            LedgerOrderStatus::CancelPending => "cancel_pending",
            LedgerOrderStatus::Cancelled => "cancelled",
            LedgerOrderStatus::Rejected => "rejected",
            LedgerOrderStatus::Unknown => "unknown",
        }
    }

    pub fn from_stored(value: &str) -> (kind: Option<Self>)
        ensures
            kind == Self::of_stored(value@),
    {
        if same(value, "intent") {
            Some(LedgerOrderStatus::Intent)
        } else if same(value, "dispatching") {
            Some(LedgerOrderStatus::Dispatching)
        } else if same(value, "submitted") {
            Some(LedgerOrderStatus::Submitted)
        } else if same(value, "partially_filled") {
            Some(LedgerOrderStatus::PartiallyFilled)
        } else if same(value, "filled") {
            Some(LedgerOrderStatus::Filled)
        } else if same(value, "cancel_pending") {
            Some(LedgerOrderStatus::CancelPending)
        } else if same(value, "cancelled") {
            Some(LedgerOrderStatus::Cancelled)
        } else if same(value, "rejected") {
            Some(LedgerOrderStatus::Rejected)
        } else if same(value, "unknown") {
            Some(LedgerOrderStatus::Unknown)
        } else {
            None
        }
    }

    /// What is stored reads back.
    pub proof fn stored_reads_back(self)
        ensures
            Self::of_stored(self.stored()) == Some(self),
    {
        reveal_strlit("intent");
        assert("intent"@.len() == 6);
        reveal_strlit("dispatching");
        assert("dispatching"@.len() == 11);
        reveal_strlit("submitted");
        assert("submitted"@.len() == 9);
        reveal_strlit("partially_filled");
        assert("partially_filled"@.len() == 16);
        reveal_strlit("filled");
        assert("filled"@.len() == 6);
        reveal_strlit("cancel_pending");
        assert("cancel_pending"@.len() == 14);
        reveal_strlit("cancelled");
        assert("cancelled"@.len() == 9);
        reveal_strlit("rejected");
        assert("rejected"@.len() == 8);
        reveal_strlit("unknown");
        assert("unknown"@.len() == 7);
        assert("filled"@[0] != "intent"@[0]);
        assert("cancelled"@[0] != "submitted"@[0]);
    }
}

#[derive(Debug, Clone, Copy, PartialEq, Eq, Structural)]
pub enum LedgerTradeStatus {
    Open,
    Closed,
    HandedOff,
    Interrupted,
}

impl LedgerTradeStatus {
    /// The word that stands for it.
    pub open spec fn stored(self) -> Seq<char> {
        match self {
            LedgerTradeStatus::Open => "open"@,
            LedgerTradeStatus::Closed => "closed"@,
            LedgerTradeStatus::HandedOff => "handed_off"@,
            LedgerTradeStatus::Interrupted => "interrupted"@,
        }
    }

    /// What a word stands for.
    pub open spec fn of_stored(word: Seq<char>) -> Option<Self> {
        if word == "open"@ {
            Some(LedgerTradeStatus::Open)
        } else if word == "closed"@ {
            Some(LedgerTradeStatus::Closed)
        } else if word == "handed_off"@ {
            Some(LedgerTradeStatus::HandedOff)
        } else if word == "interrupted"@ {
            Some(LedgerTradeStatus::Interrupted)
        } else {
            None
        }
    }

    pub fn as_str(self) -> (word: &'static str)
        ensures
            word@ == self.stored(),
    {
        match self {
            LedgerTradeStatus::Open => "open",
            LedgerTradeStatus::Closed => "closed",
            LedgerTradeStatus::HandedOff => "handed_off",
            LedgerTradeStatus::Interrupted => "interrupted",
        }
    }

    pub fn from_stored(value: &str) -> (kind: Option<Self>)
        ensures
            kind == Self::of_stored(value@),
    {
        if same(value, "open") {
            Some(LedgerTradeStatus::Open)
        } else if same(value, "closed") {
            Some(LedgerTradeStatus::Closed)
        } else if same(value, "handed_off") {
            Some(LedgerTradeStatus::HandedOff)
        } else if same(value, "interrupted") {
            Some(LedgerTradeStatus::Interrupted)
        } else {
            None
        }
    }

    /// What is stored reads back.
    pub proof fn stored_reads_back(self)
        ensures
            Self::of_stored(self.stored()) == Some(self),
    {
        reveal_strlit("open");
        assert("open"@.len() == 4);
        reveal_strlit("closed");
        assert("closed"@.len() == 6);
        reveal_strlit("handed_off");
        assert("handed_off"@.len() == 10);
        reveal_strlit("interrupted");
        assert("interrupted"@.len() == 11);
    }
}

} // verus!
