//! The one-minute bars of each code: fetched once, and then kept up to date by the trades.

use vstd::prelude::*;

use crate::candles::{
    aggregate_candles, aggregated, aggregation_is_ordered, aggregation_leaves_no_bar_out,
    aggregation_sums_up_buckets, all_datable, bucket_of, bucket_volume, closes_bucket, continued,
    in_bucket, opens_bucket, sums_up,
};
use crate::seqs::{
    filter_mapped, first_where, lemma_filter_mapped_step, lemma_first_where,
    lemma_first_where_bounds,
};
use crate::tables::{
    find, keyed, lemma_place, lemma_unique_push, lemma_unique_same, lemma_unique_update, place,
    rows, unique, Keyed,
};
use crate::types::{Candle, Quote, QuoteView};

verus! {

/// Most bars that are kept: forty hours.
pub const MAX_ONE_MINUTE_BARS: usize = 2_400;

/// The minute of a time.
pub fn minute_bucket(ts: i64) -> (start: i64)
    requires
        bucket_of(ts as int, 60) >= i64::MIN,
    ensures
        start == bucket_of(ts as int, 60),
        start <= ts < start + 60,
{
    let into: i64 = match ts.checked_rem_euclid(60) {
        Some(into) => into,
        None => 0,
    };
    ts - into
}

/// A fetched bar that counts, at the start of its minute.
pub open spec fn counted() -> spec_fn(Candle) -> Option<Candle> {
    |bar: Candle|
        if bar.time > 0 {
            Some(Candle { time: bucket_of(bar.time as int, 60) as i64, ..bar })
        } else {
            None
        }
}

/// The last bars, as many as are kept.
pub open spec fn trimmed_bars(bars: Seq<Candle>) -> Seq<Candle> {
    if bars.len() > 2_400 {
        bars.skip(bars.len() - 2_400)
    } else {
        bars
    }
}

/// Fetched bars in order, one for each minute.
pub open spec fn normalized(bars: Seq<Candle>) -> Seq<Candle> {
    trimmed_bars(aggregated(filter_mapped(bars, counted()), 1))
}

/// Bars with a trade: it goes on with the last bar of its minute, begins a new one, or is too late.
pub open spec fn with_tick(bars: Seq<Candle>, tick: Candle) -> Seq<Candle> {
    if bars.len() > 0 && bars.last().time == tick.time {
        bars.update(bars.len() - 1, continued(bars.last(), tick))
    } else if bars.len() > 0 && bars.last().time > tick.time {
        bars
    } else {
        bars.push(tick)
    }
}

/// A fetched bar with what traded meanwhile. Both may have counted the same shares, so the greater
/// volume is taken.
pub open spec fn merged(bar: Candle, pending: Candle) -> Candle {
    Candle {
        high: if pending.high > bar.high {
            pending.high
        } else {
            bar.high
        },
        low: if pending.low < bar.low {
            pending.low
        } else {
            bar.low
        },
        close: pending.close,
        volume: if pending.volume > bar.volume {
            pending.volume
        } else {
            bar.volume
        },
        ..bar
    }
}

/// Bars with what traded while they were fetched.
pub open spec fn with_pending(bars: Seq<Candle>, pending: Candle) -> Seq<Candle> {
    let i = first_where(bars, |bar: Candle| bar.time >= pending.time);
    if i < bars.len() && bars[i].time == pending.time {
        bars.update(i, merged(bars[i], pending))
    } else {
        bars.insert(i, pending)
    }
}

/// Bars with all that traded while they were fetched.
pub open spec fn with_all_pending(bars: Seq<Candle>, pending: Seq<Candle>) -> Seq<Candle>
    decreases pending.len(),
{
    if pending.len() == 0 {
        bars
    } else {
        with_pending(with_all_pending(bars, pending.drop_last()), pending.last())
    }
}

/// Bars in order, no two of the same minute.
pub open spec fn rising(bars: Seq<Candle>) -> bool {
    forall|i: int, j: int|
        #![trigger bars[i], bars[j]]
        0 <= i < j < bars.len() ==> bars[i].time < bars[j].time
}

/// What is kept of a code.
#[derive(Debug)]
pub struct HistoryEntry {
    pub code: String,
    pub bars: Vec<Candle>,
    /// The bars are to be fetched before they are next used.
    pub needs_backfill: bool,
    /// What traded while they are being fetched.
    pub pending: Vec<Candle>,
    /// Counts the gaps, so that one during a fetch is seen.
    pub generation: u64,
    pub last_trade_sequence: Option<u64>,
    /// The exchange counts anew each day.
    pub last_trade_day: Option<i64>,
}

#[verifier::ext_equal]
pub struct EntryView {
    pub code: Seq<char>,
    pub bars: Seq<Candle>,
    pub needs_backfill: bool,
    pub pending: Seq<Candle>,
    pub generation: u64,
    pub last_trade_sequence: Option<u64>,
    pub last_trade_day: Option<i64>,
}

impl View for HistoryEntry {
    type V = EntryView;

    open spec fn view(&self) -> EntryView {
        EntryView {
            code: self.code@,
            bars: self.bars@,
            needs_backfill: self.needs_backfill,
            pending: self.pending@,
            generation: self.generation,
            last_trade_sequence: self.last_trade_sequence,
            last_trade_day: self.last_trade_day,
        }
    }
}

impl Keyed for HistoryEntry {
    open spec fn key_of(row: EntryView) -> Seq<char> {
        row.code
    }

    fn key(&self) -> (key: &str) {
        self.code.as_str()
    }
}

impl EntryView {
    /// A code of which nothing is known.
    pub open spec fn blank(code: Seq<char>, needs_backfill: bool) -> EntryView {
        EntryView {
            code,
            bars: Seq::empty(),
            needs_backfill,
            pending: Seq::empty(),
            generation: 0,
            last_trade_sequence: None,
            last_trade_day: None,
        }
    }

    /// What every change keeps.
    pub open spec fn wf(self) -> bool {
        &&& rising(self.bars)
        &&& rising(self.pending)
        &&& self.bars.len() <= 2_400
    }

    /// Whether a trade is one that was counted already, or comes from an earlier day.
    pub open spec fn is_stale(self, day: int, sequence: u64) -> bool {
        match self.last_trade_day {
            Some(last) => day < last || (day == last && self.last_trade_sequence is Some && sequence
                <= self.last_trade_sequence->0),
            None => false,
        }
    }

    /// The entry with a trade.
    pub open spec fn traded(self, day: int, sequence: u64, tick: Candle) -> EntryView {
        EntryView {
            last_trade_day: Some(day as i64),
            last_trade_sequence: Some(sequence),
            pending: if self.needs_backfill {
                with_tick(self.pending, tick)
            } else {
                self.pending
            },
            bars: if self.needs_backfill {
                self.bars
            } else {
                trimmed_bars(with_tick(self.bars, tick))
            },
            ..self
        }
    }

    /// The entry after a gap in the connection.
    pub open spec fn gapped(self) -> EntryView {
        EntryView {
            needs_backfill: true,
            pending: Seq::empty(),
            last_trade_sequence: None,
            last_trade_day: None,
            generation: if self.generation == u64::MAX {
                0
            } else {
                (self.generation + 1) as u64
            },
            ..self
        }
    }

    /// The entry with bars that were fetched. A gap during the fetch leaves them to be fetched again.
    pub open spec fn fetched(self, generation: u64, bars: Seq<Candle>) -> EntryView {
        EntryView {
            bars: trimmed_bars(with_all_pending(normalized(bars), self.pending)),
            pending: Seq::empty(),
            needs_backfill: self.generation != generation,
            ..self
        }
    }
}

/// The one-minute bars of each code.
#[derive(Debug)]
pub struct MarketHistory {
    entries: Vec<HistoryEntry>,
}

#[verifier::ext_equal]
pub struct HistoryView {
    pub entries: Seq<EntryView>,
}

impl View for MarketHistory {
    type V = HistoryView;

    closed spec fn view(&self) -> HistoryView {
        HistoryView { entries: rows(self.entries@) }
    }
}

/// A trade as a bar of its minute.
pub open spec fn tick_of(quote: QuoteView) -> Candle {
    Candle {
        time: bucket_of(quote.trade_ts as int, 60) as i64,
        open: quote.price,
        high: quote.price,
        low: quote.price,
        close: quote.price,
        volume: quote.volume,
    }
}

/// Whether a quote is a trade, with a price, a time and a number.
pub open spec fn is_trade(quote: QuoteView) -> bool {
    quote.volume > 0 && quote.price > 0 && quote.trade_ts > 0 && quote.trade_sequence > 0
}

impl HistoryView {
    pub open spec fn wf(self) -> bool {
        &&& unique::<HistoryEntry>(self.entries)
        &&& forall|i: int| 0 <= i < self.entries.len() ==> (#[trigger] self.entries[i]).wf()
    }

    /// Where a code is kept, or the length where it is not.
    pub open spec fn index(self, code: Seq<char>) -> int {
        place::<HistoryEntry>(self.entries, code)
    }

    /// What is kept of a code, or what would be.
    pub open spec fn entry(self, code: Seq<char>, needs_backfill: bool) -> EntryView {
        let i = self.index(code);
        if 0 <= i < self.entries.len() {
            self.entries[i]
        } else {
            EntryView::blank(code, needs_backfill)
        }
    }

    /// The history with an entry in its place.
    pub open spec fn with(self, entry: EntryView) -> HistoryView {
        let i = self.index(entry.code);
        HistoryView {
            entries: if 0 <= i < self.entries.len() {
                self.entries.update(i, entry)
            } else {
                self.entries.push(entry)
            },
        }
    }

    /// The bars of a code that need not be fetched.
    pub open spec fn healthy(self, code: Seq<char>) -> Option<Seq<Candle>> {
        let i = self.index(code);
        if 0 <= i < self.entries.len() && !self.entries[i].needs_backfill {
            Some(self.entries[i].bars)
        } else {
            None
        }
    }

    /// The entry that a trade meets.
    pub open spec fn accepts(self, quote: QuoteView) -> bool {
        is_trade(quote) && !self.entry(quote.code, true).is_stale(
            quote.trade_ts as int / 86_400,
            quote.trade_sequence,
        )
    }

    /// The history with a trade. One that does not count leaves at most an empty entry for its code.
    pub open spec fn after_trade(self, quote: QuoteView) -> HistoryView {
        if !is_trade(quote) {
            self
        } else if self.accepts(quote) {
            self.with(
                self.entry(quote.code, true).traded(
                    quote.trade_ts as int / 86_400,
                    quote.trade_sequence,
                    tick_of(quote),
                ),
            )
        } else {
            self.with(self.entry(quote.code, true))
        }
    }
}

fn trim_history(bars: &mut Vec<Candle>)
    ensures
        final(bars)@ == trimmed_bars(old(bars)@),
{
    let ghost all = bars@;
    if bars.len() > MAX_ONE_MINUTE_BARS {
        let from: usize = bars.len() - MAX_ONE_MINUTE_BARS;
        let mut kept: Vec<Candle> = Vec::new();
        let mut i: usize = from;
        while i < bars.len()
            invariant
                from <= i <= bars@.len(),
                all == bars@,
                kept@ == all.subrange(from as int, i as int),
            decreases bars@.len() - i,
        {
            kept.push(bars[i]);
            i += 1;
            assert(all.subrange(from as int, i as int) =~= all.subrange(from as int, i - 1).push(
                all[i - 1],
            ));
        }
        assert(kept@ =~= all.skip(from as int));
        *bars = kept;
    }
}

/// Brings fetched bars in order, one for each minute.
pub fn normalize_bars(bars: &Vec<Candle>) -> (kept: Vec<Candle>)
    ensures
        kept@ == normalized(bars@),
{
    let ghost f = counted();
    let mut minutes: Vec<Candle> = Vec::new();
    let mut i: usize = 0;
    assert(bars@.take(0) =~= Seq::empty());
    while i < bars.len()
        invariant
            i <= bars@.len(),
            f == counted(),
            minutes@ == filter_mapped(bars@.take(i as int), f),
            all_datable(minutes@, 60),
        decreases bars@.len() - i,
    {
        proof {
            lemma_filter_mapped_step(bars@, f, i as int);
        }
        let bar = bars[i];
        if bar.time > 0 {
            minutes.push(Candle { time: minute_bucket(bar.time), ..bar });
        }
        i += 1;
    }
    assert(bars@.take(i as int) =~= bars@);
    let mut kept = aggregate_candles(&minutes, 1);
    trim_history(&mut kept);
    kept
}

fn apply_live_bar(bars: &mut Vec<Candle>, tick: Candle)
    ensures
        final(bars)@ == with_tick(old(bars)@, tick),
{
    let n: usize = bars.len();
    if n > 0 && bars[n - 1].time == tick.time {
        let last = bars[n - 1];
        let high: u64 = if tick.high > last.high {
            tick.high
        } else {
            last.high
        };
        let low: u64 = if tick.low < last.low {
            tick.low
        } else {
            last.low
        };
        let volume: u64 = last.volume.saturating_add(tick.volume);
        bars.set(n - 1, Candle { high, low, close: tick.close, volume, ..last });
    } else if n > 0 && bars[n - 1].time > tick.time {
    } else {
        bars.push(tick);
    }
}

fn merge_pending_bar(bars: &mut Vec<Candle>, pending: Candle)
    ensures
        final(bars)@ == with_pending(old(bars)@, pending),
{
    let ghost all = bars@;
    let ghost p = |bar: Candle| bar.time >= pending.time;
    let mut i: usize = 0;
    while i < bars.len() && bars[i].time < pending.time
        invariant
            i <= bars@.len(),
            all == bars@,
            p == (|bar: Candle| bar.time >= pending.time),
            forall|k: int| 0 <= k < i ==> !p(#[trigger] all[k]),
        decreases bars@.len() - i,
    {
        i += 1;
    }
    proof {
        lemma_first_where(all, p, i as int);
    }
    if i < bars.len() && bars[i].time == pending.time {
        let bar = bars[i];
        let high: u64 = if pending.high > bar.high {
            pending.high
        } else {
            bar.high
        };
        let low: u64 = if pending.low < bar.low {
            pending.low
        } else {
            bar.low
        };
        let volume: u64 = if pending.volume > bar.volume {
            pending.volume
        } else {
            bar.volume
        };
        bars.set(i, Candle { high, low, close: pending.close, volume, ..bar });
    } else {
        bars.insert(i, pending);
    }
}

/// Trimming keeps the order.
proof fn lemma_trimmed(bars: Seq<Candle>)
    requires
        rising(bars),
    ensures
        rising(trimmed_bars(bars)),
        trimmed_bars(bars).len() <= 2_400,
{
    let t = trimmed_bars(bars);
    if bars.len() > 2_400 {
        let d = bars.len() - 2_400;
        assert forall|i: int, j: int|
            #![trigger t[i], t[j]]
            0 <= i < j < t.len() implies t[i].time < t[j].time by {
            assert(bars[i + d].time < bars[j + d].time);
        }
    }
}

proof fn lemma_filtered_datable(bars: Seq<Candle>)
    ensures
        all_datable(filter_mapped(bars, counted()), 60),
    decreases bars.len(),
{
    if bars.len() > 0 {
        lemma_filtered_datable(bars.drop_last());
    }
}

proof fn lemma_normalized(bars: Seq<Candle>)
    ensures
        rising(normalized(bars)),
{
    lemma_filtered_datable(bars);
    aggregation_is_ordered(filter_mapped(bars, counted()), 1);
    lemma_trimmed(aggregated(filter_mapped(bars, counted()), 1));
}

proof fn lemma_with_tick(bars: Seq<Candle>, tick: Candle)
    requires
        rising(bars),
    ensures
        rising(with_tick(bars, tick)),
{
    let w = with_tick(bars, tick);
    assert forall|i: int, j: int|
        #![trigger w[i], w[j]]
        0 <= i < j < w.len() implies w[i].time < w[j].time by {
        if j < bars.len() {
            assert(bars[i].time < bars[j].time);
        } else if i < bars.len() - 1 {
            assert(bars[i].time < bars[bars.len() - 1].time);
        }
    }
}

proof fn lemma_with_pending(bars: Seq<Candle>, pending: Candle)
    requires
        rising(bars),
    ensures
        rising(with_pending(bars, pending)),
{
    let p = |bar: Candle| bar.time >= pending.time;
    let k = first_where(bars, p);
    lemma_first_where_bounds(bars, p);
    let w = with_pending(bars, pending);
    assert forall|i: int, j: int|
        #![trigger w[i], w[j]]
        0 <= i < j < w.len() implies w[i].time < w[j].time by {
        if i < k {
            assert(!p(bars[i]));
        }
        if k < bars.len() {
            assert(p(bars[k]));
        }
        if w.len() == bars.len() {
            assert(bars[i].time < bars[j].time);
        } else {
            if j < k {
                assert(bars[i].time < bars[j].time);
            } else if j > k {
                if i < k {
                    assert(bars[i].time < bars[j - 1].time);
                } else if i > k {
                    assert(bars[i - 1].time < bars[j - 1].time);
                } else if j - 1 > k {
                    assert(bars[k].time < bars[j - 1].time);
                }
            }
        }
    }
}

proof fn lemma_with_all_pending(bars: Seq<Candle>, pending: Seq<Candle>)
    requires
        rising(bars),
    ensures
        rising(with_all_pending(bars, pending)),
    decreases pending.len(),
{
    if pending.len() > 0 {
        lemma_with_all_pending(bars, pending.drop_last());
        lemma_with_pending(with_all_pending(bars, pending.drop_last()), pending.last());
    }
}

/// Every change of an entry keeps its bars in order, no two of a minute, and no more than are kept.
pub proof fn entries_stay_in_order(
    entry: EntryView,
    day: int,
    sequence: u64,
    tick: Candle,
    generation: u64,
    bars: Seq<Candle>,
)
    requires
        entry.wf(),
    ensures
        entry.traded(day, sequence, tick).wf(),
        entry.gapped().wf(),
        entry.fetched(generation, bars).wf(),
{
    lemma_with_tick(entry.pending, tick);
    lemma_with_tick(entry.bars, tick);
    lemma_trimmed(with_tick(entry.bars, tick));
    lemma_normalized(bars);
    lemma_with_all_pending(normalized(bars), entry.pending);
    lemma_trimmed(with_all_pending(normalized(bars), entry.pending));
}

impl HistoryEntry {
    fn blank(code: &str, needs_backfill: bool) -> (entry: Self)
        ensures
            entry@ == EntryView::blank(code@, needs_backfill),
    {
        let entry = HistoryEntry {
            code: code.to_owned(),
            bars: Vec::new(),
            needs_backfill,
            pending: Vec::new(),
            generation: 0,
            last_trade_sequence: None,
            last_trade_day: None,
        };
        assert(entry@ =~= EntryView::blank(code@, needs_backfill));
        entry
    }

    fn gap(&mut self)
        ensures
            final(self)@ == old(self)@.gapped(),
    {
        let ghost before = self@;
        self.needs_backfill = true;
        self.pending = Vec::new();
        self.last_trade_sequence = None;
        self.last_trade_day = None;
        self.generation = if self.generation == u64::MAX {
            0
        } else {
            self.generation + 1
        };
        assert(self@ =~= before.gapped());
    }
}

fn copy_bars(bars: &Vec<Candle>) -> (copy: Vec<Candle>)
    ensures
        copy@ == bars@,
{
    let mut copy: Vec<Candle> = Vec::new();
    let mut i: usize = 0;
    while i < bars.len()
        invariant
            i <= bars@.len(),
            copy@ == bars@.take(i as int),
        decreases bars@.len() - i,
    {
        copy.push(bars[i]);
        i += 1;
        assert(bars@.take(i as int) =~= bars@.take(i - 1).push(bars@[i - 1]));
    }
    assert(bars@.take(i as int) =~= bars@);
    copy
}

impl MarketHistory {
    pub fn new() -> (history: Self)
        ensures
            history@ == (HistoryView { entries: Seq::empty() }),
            history@.wf(),
    {
        let history = MarketHistory { entries: Vec::new() };
        assert(history@.entries =~= Seq::empty());
        history
    }

    /// The bars of a code, where they need not be fetched.
    pub fn cached(&self, code: &str) -> (bars: Option<Vec<Candle>>)
        ensures
            match bars {
                Some(b) => self@.healthy(code@) == Some(b@),
                None => self@.healthy(code@) is None,
            },
    {
        match find(&self.entries, code) {
            Some(i) => {
                assert(self@.entries[i as int] == self.entries@[i as int]@);
                if self.entries[i].needs_backfill {
                    None
                } else {
                    Some(copy_bars(&self.entries[i].bars))
                }
            },
            None => None,
        }
    }

    /// Where a code is kept, with an entry made for it where there was none.
    fn slot(&mut self, code: &str, needs_backfill: bool) -> (i: usize)
        requires
            old(self)@.wf(),
        ensures
            final(self)@ == old(self)@.with(old(self)@.entry(code@, needs_backfill)),
            final(self)@.wf(),
            i < final(self)@.entries.len(),
            i == old(self)@.index(code@) <= old(self)@.entries.len(),
            final(self)@.entries[i as int] == old(self)@.entry(code@, needs_backfill),
            final(self)@.entries[i as int].code == code@,
    {
        let ghost before = self@;
        proof {
            lemma_first_where_bounds(before.entries, keyed::<HistoryEntry>(code@));
        }
        match find(&self.entries, code) {
            Some(i) => {
                proof {
                    assert(before.entries[i as int] == self.entries@[i as int]@);
                    assert(before.with(before.entry(code@, needs_backfill)).entries =~= before.entries);
                }
                i
            },
            None => {
                let entry = HistoryEntry::blank(code, needs_backfill);
                let ghost view = entry@;
                self.entries.push(entry);
                proof {
                    assert(self@ =~= before.with(view));
                    lemma_unique_push::<HistoryEntry>(before.entries, view);
                    assert(view.wf());
                }
                self.entries.len() - 1
            },
        }
    }

    /// Counts a trade in the bars of its code, and says whether it counted. A quote without a trade,
    /// a trade that was counted already and one of an earlier day do not.
    pub fn apply_trade(&mut self, quote: &Quote) -> (counted: bool)
        requires
            old(self)@.wf(),
        ensures
            counted == old(self)@.accepts(quote@),
            final(self)@ == old(self)@.after_trade(quote@),
            final(self)@.wf(),
    {
        if quote.volume == 0 || quote.price == 0 || quote.trade_ts <= 0 || quote.trade_sequence == 0 {
            return false;
        }
        let ghost before = self@;
        let ghost entry = before.entry(quote@.code, true);
        let tick = Candle {
            time: minute_bucket(quote.trade_ts),
            open: quote.price,
            high: quote.price,
            low: quote.price,
            close: quote.price,
            volume: quote.volume,
        };
        let i: usize = self.slot(quote.code.as_str(), true);
        let ghost found = self@;
        let day: i64 = quote.trade_ts / 86_400;
        let stale = match self.entries[i].last_trade_day {
            Some(last) => day < last || (day == last && match self.entries[i].last_trade_sequence {
                Some(sequence) => quote.trade_sequence <= sequence,
                None => false,
            }),
            None => false,
        };
        assert(self.entries@[i as int]@ == entry);
        if stale {
            return false;
        }
        let mut row = self.entries.remove(i);
        row.last_trade_day = Some(day);
        row.last_trade_sequence = Some(quote.trade_sequence);
        if row.needs_backfill {
            apply_live_bar(&mut row.pending, tick);
        } else {
            apply_live_bar(&mut row.bars, tick);
            trim_history(&mut row.bars);
        }
        let ghost after = entry.traded(day as int, quote.trade_sequence, tick);
        assert(row@ =~= after);
        self.entries.insert(i, row);
        proof {
            assert(self@.entries =~= found.entries.update(i as int, after));
            assert(self@.entries =~= before.with(after).entries);
            lemma_unique_update::<HistoryEntry>(found.entries, i as int, after);
            entries_stay_in_order(
                entry,
                day as int,
                quote.trade_sequence,
                tick,
                0,
                Seq::empty(),
            );
        }
        true
    }

    /// Marks the bars of a code to be fetched again, after a gap in the connection.
    pub fn mark_gap(&mut self, code: &str)
        requires
            old(self)@.wf(),
        ensures
            final(self)@ == old(self)@.with(old(self)@.entry(code@, false).gapped()),
            final(self)@.wf(),
    {
        let ghost before = self@;
        let ghost entry = before.entry(code@, false);
        let i: usize = self.slot(code, false);
        let ghost found = self@;
        assert(self.entries@[i as int]@ == entry);
        let mut row = self.entries.remove(i);
        row.gap();
        self.entries.insert(i, row);
        proof {
            assert(self@.entries =~= found.entries.update(i as int, entry.gapped()));
            assert(self@.entries =~= before.with(entry.gapped()).entries);
            lemma_unique_update::<HistoryEntry>(found.entries, i as int, entry.gapped());
        }
    }

    /// Marks the bars of every code to be fetched again.
    pub fn mark_all_gapped(&mut self)
        requires
            old(self)@.wf(),
        ensures
            final(self)@.entries == old(self)@.entries.map_values(|entry: EntryView| entry.gapped()),
            final(self)@.wf(),
    {
        let ghost before = self@;
        let mut i: usize = 0;
        while i < self.entries.len()
            invariant
                i <= self.entries@.len(),
                before == old(self)@,
                self@.entries.len() == before.entries.len(),
                forall|k: int|
                    0 <= k < i ==> #[trigger] self@.entries[k] == before.entries[k].gapped(),
                forall|k: int|
                    i <= k < before.entries.len() ==> #[trigger] self@.entries[k]
                        == before.entries[k],
            decreases self.entries@.len() - i,
        {
            let ghost prior = self@.entries;
            assert(prior[i as int] == self.entries@[i as int]@);
            let mut row = self.entries.remove(i);
            row.gap();
            self.entries.insert(i, row);
            assert(self@.entries =~= prior.update(i as int, row@));
            i += 1;
        }
        proof {
            let made = before.entries.map_values(|entry: EntryView| entry.gapped());
            assert(self@.entries =~= made);
            lemma_unique_same::<HistoryEntry>(before.entries, made);
            assert forall|k: int| 0 <= k < made.len() implies (#[trigger] made[k]).wf() by {
                assert(before.entries[k].wf());
            }
        }
    }

    /// Notes that the bars of a code are about to be fetched, and gives the mark by which a gap
    /// during the fetch is seen.
    pub fn begin_fetch(&mut self, code: &str) -> (generation: u64)
        requires
            old(self)@.wf(),
        ensures
            final(self)@ == old(self)@.with(old(self)@.entry(code@, true)),
            generation == old(self)@.entry(code@, true).generation,
            final(self)@.wf(),
    {
        let i: usize = self.slot(code, true);
        assert(self@.entries[i as int] == self.entries@[i as int]@);
        self.entries[i].generation
    }

    /// Takes the bars that were fetched, with what traded meanwhile, and gives them.
    pub fn complete_fetch(&mut self, code: &str, generation: u64, fetched: Vec<Candle>) -> (bars: Vec<
        Candle,
    >)
        requires
            old(self)@.wf(),
        ensures
            ({
                let entry = old(self)@.entry(code@, false).fetched(generation, fetched@);
                final(self)@ == old(self)@.with(entry) && bars@ == entry.bars
            }),
            final(self)@.wf(),
    {
        let ghost before = self@;
        let ghost entry = before.entry(code@, false);
        let i: usize = self.slot(code, false);
        let ghost found = self@;
        assert(self.entries@[i as int]@ == entry);
        let mut row = self.entries.remove(i);
        let mut bars = normalize_bars(&fetched);
        let ghost start = bars@;
        let mut k: usize = 0;
        assert(row.pending@.take(0) =~= Seq::empty());
        while k < row.pending.len()
            invariant
                k <= row.pending@.len(),
                bars@ == with_all_pending(start, row.pending@.take(k as int)),
            decreases row.pending@.len() - k,
        {
            assert(row.pending@.take(k + 1).drop_last() =~= row.pending@.take(k as int));
            merge_pending_bar(&mut bars, row.pending[k]);
            k += 1;
        }
        assert(row.pending@.take(k as int) =~= row.pending@);
        trim_history(&mut bars);
        row.pending = Vec::new();
        row.needs_backfill = row.generation != generation;
        row.bars = copy_bars(&bars);
        let ghost after = entry.fetched(generation, fetched@);
        assert(row@ =~= after);
        self.entries.insert(i, row);
        proof {
            assert(self@.entries =~= found.entries.update(i as int, after));
            assert(self@.entries =~= before.with(after).entries);
            lemma_unique_update::<HistoryEntry>(found.entries, i as int, after);
            assert(entry.wf());
            entries_stay_in_order(
                entry,
                0,
                0,
                Candle { time: 0, open: 0, high: 0, low: 0, close: 0, volume: 0 },
                generation,
                fetched@,
            );
        }
        bars
    }
}

/// What is put in the history is what is found there, and the other codes are as they were.
pub proof fn entry_reads_back(history: HistoryView, entry: EntryView, other: Seq<char>)
    requires
        history.wf(),
        other != entry.code,
    ensures
        history.with(entry).entry(entry.code, true) == entry,
        history.with(entry).healthy(other) == history.healthy(other),
{
    let after = history.with(entry);
    let i = history.index(entry.code);
    lemma_first_where_bounds(history.entries, keyed::<HistoryEntry>(entry.code));
    if i < history.entries.len() {
        lemma_unique_update::<HistoryEntry>(history.entries, i, entry);
        lemma_place::<HistoryEntry>(after.entries, entry.code, i);
    } else {
        lemma_unique_push::<HistoryEntry>(history.entries, entry);
        lemma_place::<HistoryEntry>(after.entries, entry.code, history.entries.len() as int);
    }
    let p = keyed::<HistoryEntry>(other);
    let j = history.index(other);
    lemma_first_where_bounds(history.entries, p);
    if j < history.entries.len() {
        assert(p(history.entries[j]));
        assert(after.entries[j] == history.entries[j]);
        lemma_place::<HistoryEntry>(after.entries, other, j);
    } else {
        assert forall|k: int| 0 <= k < after.entries.len() implies !p(#[trigger] after.entries[k]) by {
            if k < history.entries.len() && k != i {
                assert(!p(history.entries[k]));
            }
        }
        lemma_first_where(after.entries, p, after.entries.len() as int);
    }
}

/// A trade counts once: the same trade, sent again, does not count and changes nothing but what it
/// did.
pub proof fn trade_counts_once(history: HistoryView, quote: QuoteView)
    requires
        history.wf(),
    ensures
        !history.after_trade(quote).accepts(quote),
{
    if history.accepts(quote) {
        let i = history.index(quote.code);
        let entry = history.entry(quote.code, true);
        let p = keyed::<HistoryEntry>(quote.code);
        lemma_first_where_bounds(history.entries, p);
        if i < history.entries.len() {
            assert(p(history.entries[i]));
        }
        assert(entry.code == quote.code);
        let day = quote.trade_ts as int / 86_400;
        let traded = entry.traded(day, quote.trade_sequence, tick_of(quote));
        assert(quote.code.push('x').len() != quote.code.len());
        entry_reads_back(history, traded, quote.code.push('x'));
        assert(traded.is_stale(day, quote.trade_sequence));
    } else if is_trade(quote) {
        let i = history.index(quote.code);
        let entry = history.entry(quote.code, true);
        let p = keyed::<HistoryEntry>(quote.code);
        lemma_first_where_bounds(history.entries, p);
        if i < history.entries.len() {
            assert(p(history.entries[i]));
        }
        assert(quote.code.push('x').len() != quote.code.len());
        assert(entry.code == quote.code);
        entry_reads_back(history, entry, quote.code.push('x'));
    }
}

/// After a gap the bars of a code are fetched again, and trades are numbered anew.
pub proof fn gap_asks_for_a_fetch(history: HistoryView, code: Seq<char>)
    requires
        history.wf(),
    ensures
        history.with(history.entry(code, false).gapped()).healthy(code) is None,
        forall|day: int, sequence: u64| !(#[trigger] history.entry(code, false).gapped().is_stale(
            day,
            sequence,
        )),
{
    let entry = history.entry(code, false).gapped();
    let i = history.index(code);
    let p = keyed::<HistoryEntry>(code);
    lemma_first_where_bounds(history.entries, p);
    if i < history.entries.len() {
        assert(p(history.entries[i]));
    }
    let after = history.with(entry);
    if i < history.entries.len() {
        lemma_unique_update::<HistoryEntry>(history.entries, i, entry);
        lemma_place::<HistoryEntry>(after.entries, code, i);
    } else {
        lemma_unique_push::<HistoryEntry>(history.entries, entry);
        lemma_place::<HistoryEntry>(after.entries, code, history.entries.len() as int);
    }
}

/// Whether bars hold one of a minute.
pub open spec fn has_minute(bars: Seq<Candle>, time: i64) -> bool {
    exists|i: int| 0 <= i < bars.len() && (#[trigger] bars[i]).time == time
}

/// Whether a bar is what a fetched one and what traded meanwhile come to: it opens as the fetched one
/// did, closes at the last trade, reaches as far as either, and counts the more of the two volumes.
pub open spec fn joins(bar: Candle, brought: Candle, traded: Candle) -> bool {
    &&& bar.time == brought.time == traded.time
    &&& bar.open == brought.open
    &&& bar.close == traded.close
    &&& bar.high >= brought.high && bar.high >= traded.high
    &&& bar.high == brought.high || bar.high == traded.high
    &&& bar.low <= brought.low && bar.low <= traded.low
    &&& bar.low == brought.low || bar.low == traded.low
    &&& bar.volume >= brought.volume && bar.volume >= traded.volume
    &&& bar.volume == brought.volume || bar.volume == traded.volume
}

/// Whether a bar is what the bars that were fetched and the trades of its minute come to.
spec fn comes_to(brought: Seq<Candle>, traded: Candle, bar: Candle) -> bool {
    &&& forall|j: int|
        0 <= j < brought.len() && (#[trigger] brought[j]).time == bar.time ==> joins(
            bar,
            brought[j],
            traded,
        )
    &&& !has_minute(brought, bar.time) ==> bar == traded
}

proof fn lemma_pending_joined(bars: Seq<Candle>, pending: Candle)
    requires
        rising(bars),
    ensures
        ({
            let w = with_pending(bars, pending);
            &&& rising(w)
            &&& has_minute(w, pending.time)
            &&& forall|j: int|
                0 <= j < bars.len() ==> has_minute(w, (#[trigger] bars[j]).time)
            &&& forall|i: int|
                0 <= i < w.len() ==> if (#[trigger] w[i]).time == pending.time {
                    comes_to(bars, pending, w[i])
                } else {
                    bars.contains(w[i])
                }
        }),
{
    lemma_with_pending(bars, pending);
    let p = |bar: Candle| bar.time >= pending.time;
    let f = first_where(bars, p);
    lemma_first_where_bounds(bars, p);
    let w = with_pending(bars, pending);
    assert(w[f].time == pending.time);
    let held = f < bars.len() && bars[f].time == pending.time;
    assert forall|j: int| 0 <= j < bars.len() implies has_minute(w, (#[trigger] bars[j]).time) by {
        if held || j < f {
            assert(w[j].time == bars[j].time);
        } else {
            assert(w[j + 1] == bars[j]);
        }
    }
    assert forall|j: int|
        0 <= j < bars.len() && (#[trigger] bars[j]).time == pending.time implies held && j == f by {
        if j < f {
            assert(!p(bars[j]));
        } else if j > f {
            assert(p(bars[f]));
            assert(bars[f].time < bars[j].time);
        }
    }
    assert forall|i: int| 0 <= i < w.len() implies if (#[trigger] w[i]).time == pending.time {
        comes_to(bars, pending, w[i])
    } else {
        bars.contains(w[i])
    } by {
        if i == f {
            if held {
                assert(w[i] == merged(bars[f], pending));
                assert(has_minute(bars, bars[f].time));
            } else {
                assert(w[i] == pending);
            }
        } else {
            let m = if held || i < f {
                i
            } else {
                i - 1
            };
            assert(w[i] == bars[m]);
            assert(bars[m].time != pending.time);
        }
    }
}

/// What is known of a bar after all that traded was taken in.
spec fn accounted(brought: Seq<Candle>, pending: Seq<Candle>, bar: Candle) -> bool {
    &&& forall|k: int|
        0 <= k < pending.len() && (#[trigger] pending[k]).time == bar.time ==> comes_to(
            brought,
            pending[k],
            bar,
        )
    &&& !has_minute(pending, bar.time) ==> brought.contains(bar)
}

proof fn lemma_all_pending_joined(brought: Seq<Candle>, pending: Seq<Candle>)
    requires
        rising(brought),
        rising(pending),
    ensures
        ({
            let w = with_all_pending(brought, pending);
            &&& rising(w)
            &&& forall|j: int|
                0 <= j < brought.len() ==> has_minute(w, (#[trigger] brought[j]).time)
            &&& forall|k: int|
                0 <= k < pending.len() ==> has_minute(w, (#[trigger] pending[k]).time)
            &&& forall|i: int|
                0 <= i < w.len() ==> accounted(brought, pending, #[trigger] w[i])
        }),
    decreases pending.len(),
{
    let w = with_all_pending(brought, pending);
    if pending.len() == 0 {
        assert forall|j: int| 0 <= j < brought.len() implies has_minute(
            w,
            (#[trigger] brought[j]).time,
        ) by {
            assert(w[j].time == brought[j].time);
        }
    } else {
        let init = pending.drop_last();
        let last = pending.last();
        let before = with_all_pending(brought, init);
        assert(rising(init)) by {
            assert forall|i: int, j: int|
                #![trigger init[i], init[j]]
                0 <= i < j < init.len() implies init[i].time < init[j].time by {
                assert(pending[i].time < pending[j].time);
            }
        }
        lemma_all_pending_joined(brought, init);
        lemma_pending_joined(before, last);
        assert forall|j: int| 0 <= j < brought.len() implies has_minute(
            w,
            (#[trigger] brought[j]).time,
        ) by {
            let m = choose|m: int| 0 <= m < before.len() && before[m].time == brought[j].time;
            assert(has_minute(w, before[m].time));
        }
        assert forall|k: int| 0 <= k < pending.len() implies has_minute(
            w,
            (#[trigger] pending[k]).time,
        ) by {
            if k < init.len() {
                assert(init[k] == pending[k]);
                let m = choose|m: int| 0 <= m < before.len() && before[m].time == init[k].time;
                assert(has_minute(w, before[m].time));
            }
        }
        assert forall|k: int| 0 <= k < init.len() implies (#[trigger] init[k]).time < last.time by {
            assert(pending[k].time < pending[pending.len() - 1].time);
        }
        assert forall|i: int| 0 <= i < w.len() implies accounted(
            brought,
            pending,
            #[trigger] w[i],
        ) by {
            let bar = w[i];
            if bar.time == last.time {
                assert(comes_to(before, last, bar));
                assert(pending[pending.len() - 1].time == bar.time);
                assert(!has_minute(init, bar.time));
                assert(comes_to(brought, last, bar)) by {
                    if has_minute(before, bar.time) {
                        let m = choose|m: int| 0 <= m < before.len() && before[m].time == bar.time;
                        assert(accounted(brought, init, before[m]));
                        assert(brought.contains(before[m]));
                        let n = choose|n: int| 0 <= n < brought.len() && brought[n] == before[m];
                        assert(brought[n].time == bar.time);
                        assert forall|j: int|
                            0 <= j < brought.len() && (#[trigger] brought[j]).time
                                == bar.time implies joins(bar, brought[j], last) by {
                            if j < n {
                                assert(brought[j].time < brought[n].time);
                            } else if j > n {
                                assert(brought[n].time < brought[j].time);
                            }
                        }
                    } else {
                        assert forall|j: int|
                            0 <= j < brought.len() && (#[trigger] brought[j]).time
                                == bar.time implies joins(bar, brought[j], last) by {
                            assert(has_minute(before, brought[j].time));
                        }
                    }
                }
                assert forall|k: int|
                    0 <= k < pending.len() && (#[trigger] pending[k]).time == bar.time implies comes_to(
                    brought,
                    pending[k],
                    bar,
                ) by {
                    if k < init.len() {
                        assert(init[k].time < last.time);
                    }
                }
            } else {
                let m = choose|m: int| 0 <= m < before.len() && before[m] == bar;
                assert(accounted(brought, init, before[m]));
                assert forall|k: int|
                    0 <= k < pending.len() && (#[trigger] pending[k]).time == bar.time implies comes_to(
                    brought,
                    pending[k],
                    bar,
                ) by {
                    assert(init[k] == pending[k]);
                }
                if has_minute(init, bar.time) {
                    let k = choose|k: int| 0 <= k < init.len() && init[k].time == bar.time;
                    assert(pending[k].time == bar.time);
                }
            }
        }
    }
}

/// A fetch loses no trade that came meanwhile: the bar of a minute that traded closes at the last of
/// those trades, reaches as high and as low as both the fetched bar and the trades, and has the
/// greater of their volumes. Where nothing was fetched for the minute, the trades are its bar.
pub proof fn fetch_keeps_what_traded(
    entry: EntryView,
    generation: u64,
    bars: Seq<Candle>,
    k: int,
    i: int,
)
    requires
        entry.wf(),
        0 <= k < entry.pending.len(),
        0 <= i < entry.fetched(generation, bars).bars.len(),
        entry.fetched(generation, bars).bars[i].time == entry.pending[k].time,
    ensures
        ({
            let brought = normalized(bars);
            let bar = entry.fetched(generation, bars).bars[i];
            &&& forall|j: int|
                0 <= j < brought.len() && (#[trigger] brought[j]).time == bar.time ==> joins(
                    bar,
                    brought[j],
                    entry.pending[k],
                )
            &&& !has_minute(brought, bar.time) ==> bar == entry.pending[k]
        }),
{
    let brought = normalized(bars);
    let w = with_all_pending(brought, entry.pending);
    lemma_normalized(bars);
    lemma_all_pending_joined(brought, entry.pending);
    let d = if w.len() > 2_400 {
        w.len() - 2_400
    } else {
        0
    };
    assert(entry.fetched(generation, bars).bars[i] == w[i + d]);
    assert(accounted(brought, entry.pending, w[i + d]));
}

/// A fetch gives what it brought where nothing traded meanwhile, and no other minutes. All minutes
/// are kept from the first kept one on, and all there are where fewer than the most are kept. What
/// traded is then taken in, and the bars are good unless there was a gap during the fetch.
pub proof fn fetch_keeps_what_it_brought(entry: EntryView, generation: u64, bars: Seq<Candle>)
    requires
        entry.wf(),
    ensures
        ({
            let brought = normalized(bars);
            let after = entry.fetched(generation, bars);
            let kept = after.bars;
            &&& forall|i: int|
                0 <= i < kept.len() && !has_minute(entry.pending, (#[trigger] kept[i]).time)
                    ==> brought.contains(kept[i])
            &&& forall|time: i64|
                (has_minute(brought, time) || has_minute(entry.pending, time)) && (kept.len()
                    < 2_400 || kept[0].time <= time) ==> #[trigger] has_minute(kept, time)
            &&& after.pending.len() == 0
            &&& after.needs_backfill <==> generation != entry.generation
            &&& after.code == entry.code
            &&& after.generation == entry.generation
            &&& after.last_trade_day == entry.last_trade_day
            &&& after.last_trade_sequence == entry.last_trade_sequence
        }),
{
    let brought = normalized(bars);
    let w = with_all_pending(brought, entry.pending);
    let kept = entry.fetched(generation, bars).bars;
    lemma_normalized(bars);
    lemma_all_pending_joined(brought, entry.pending);
    let d = if w.len() > 2_400 {
        w.len() - 2_400
    } else {
        0
    };
    assert forall|i: int|
        0 <= i < kept.len() && !has_minute(
            entry.pending,
            (#[trigger] kept[i]).time,
        ) implies brought.contains(kept[i]) by {
        assert(kept[i] == w[i + d]);
        assert(accounted(brought, entry.pending, w[i + d]));
    }
    assert forall|time: i64|
        (has_minute(brought, time) || has_minute(entry.pending, time)) && (kept.len() < 2_400
            || kept[0].time <= time) implies #[trigger] has_minute(kept, time) by {
        if has_minute(brought, time) {
            let j = choose|j: int| 0 <= j < brought.len() && (#[trigger] brought[j]).time == time;
            assert(has_minute(w, brought[j].time));
        } else {
            let k = choose|k: int|
                0 <= k < entry.pending.len() && (#[trigger] entry.pending[k]).time == time;
            assert(has_minute(w, entry.pending[k].time));
        }
        let m = choose|m: int| 0 <= m < w.len() && (#[trigger] w[m]).time == time;
        if m < d {
            assert(kept[0] == w[d]);
            assert(w[m].time < w[d].time);
        }
        assert(kept[m - d] == w[m]);
    }
}

/// A trade is in the bars: the bar of its minute closes at its price, reaches it, and counts its
/// shares as far as they can be counted. A trade of a later minute begins a bar, and one of an
/// earlier minute than the last changes none.
pub proof fn trade_is_in_its_bar(bars: Seq<Candle>, tick: Candle)
    requires
        rising(bars),
    ensures
        ({
            let after = with_tick(bars, tick);
            let n = bars.len() as int;
            &&& n == 0 || bars[n - 1].time < tick.time ==> after.len() == n + 1 && after[n] == tick
                && (forall|i: int| 0 <= i < n ==> after[i] == #[trigger] bars[i])
            &&& n > 0 && bars[n - 1].time > tick.time ==> after == bars
            &&& n > 0 && bars[n - 1].time == tick.time ==> {
                &&& after.len() == n
                &&& forall|i: int| 0 <= i < n - 1 ==> after[i] == #[trigger] bars[i]
                &&& after[n - 1].time == tick.time
                &&& after[n - 1].open == bars[n - 1].open
                &&& after[n - 1].close == tick.close
                &&& after[n - 1].high >= tick.high && after[n - 1].high >= bars[n - 1].high
                &&& after[n - 1].high == tick.high || after[n - 1].high == bars[n - 1].high
                &&& after[n - 1].low <= tick.low && after[n - 1].low <= bars[n - 1].low
                &&& after[n - 1].low == tick.low || after[n - 1].low == bars[n - 1].low
                &&& bars[n - 1].volume + tick.volume <= u64::MAX ==> after[n - 1].volume == bars[n
                    - 1].volume + tick.volume
                &&& bars[n - 1].volume + tick.volume > u64::MAX ==> after[n - 1].volume == u64::MAX
            }
        }),
{
}

/// A trade that counts is in the bars of its code, at its price and in its minute, or is kept for the
/// bars that are being fetched; nothing else of the code changes but which trade came last, and no
/// other code does.
pub proof fn trade_reaches_its_code(history: HistoryView, quote: QuoteView, other: Seq<char>)
    requires
        history.wf(),
        history.accepts(quote),
        other != quote.code,
    ensures
        ({
            let before = history.entry(quote.code, true);
            let after = history.after_trade(quote).entry(quote.code, true);
            let kept = if before.needs_backfill {
                after.pending
            } else {
                after.bars
            };
            let held = if before.needs_backfill {
                before.pending
            } else {
                before.bars
            };
            let minute = quote.trade_ts - quote.trade_ts as int % 60;
            &&& after.needs_backfill == before.needs_backfill
            &&& after.generation == before.generation
            &&& after.code == quote.code
            &&& before.needs_backfill ==> after.bars == before.bars
            &&& !before.needs_backfill ==> after.pending == before.pending
            &&& after.last_trade_sequence == Some(quote.trade_sequence)
            &&& after.last_trade_day matches Some(day) && day * 86_400 <= quote.trade_ts < (day + 1)
                * 86_400
            &&& held.len() == 0 || held.last().time <= minute ==> {
                &&& kept.len() > 0
                &&& kept.last().time == minute
                &&& kept.last().close == quote.price
                &&& kept.last().low <= quote.price <= kept.last().high
            }
            &&& held.len() == 0 || held.last().time < minute ==> {
                &&& kept.last().open == quote.price
                &&& kept.last().high == quote.price
                &&& kept.last().low == quote.price
                &&& kept.last().volume == quote.volume
            }
            &&& held.len() > 0 && held.last().time > minute ==> kept == held
        }),
        history.after_trade(quote).healthy(other) == history.healthy(other),
{
    let entry = history.entry(quote.code, true);
    let p = keyed::<HistoryEntry>(quote.code);
    lemma_first_where_bounds(history.entries, p);
    let i = history.index(quote.code);
    if i < history.entries.len() {
        assert(p(history.entries[i]));
        assert(history.entries[i].wf());
    }
    let day = quote.trade_ts as int / 86_400;
    let traded = entry.traded(day, quote.trade_sequence, tick_of(quote));
    entry_reads_back(history, traded, other);
    vstd::arithmetic::div_mod::lemma_fundamental_div_mod(quote.trade_ts as int, 86_400);
    lemma_with_tick(entry.bars, tick_of(quote));
}

/// A trade counts exactly where it has shares, a price, a time and a number, and is not of an earlier
/// day than the last, nor of the same day with a number that was passed.
pub proof fn late_trades_do_not_count(entry: EntryView, history: HistoryView, quote: QuoteView)
    requires
        history.wf(),
        entry == history.entry(quote.code, true),
    ensures
        ({
            let day = quote.trade_ts as int / 86_400;
            &&& quote.volume == 0 || quote.price == 0 || quote.trade_ts <= 0 || quote.trade_sequence
                == 0 ==> !history.accepts(quote) && history.after_trade(quote) == history
            &&& quote.volume > 0 && quote.price > 0 && quote.trade_ts > 0 && quote.trade_sequence
                > 0 ==> {
                &&& entry.last_trade_day is None ==> history.accepts(quote)
                &&& entry.last_trade_day matches Some(last) ==> {
                    &&& day > last ==> history.accepts(quote)
                    &&& day < last ==> !history.accepts(quote)
                    &&& day == last ==> (entry.last_trade_sequence matches Some(n) ==> (
                    history.accepts(quote) <==> quote.trade_sequence > n))
                }
            }
            &&& !history.accepts(quote) ==> history.after_trade(quote).entry(quote.code, true)
                == entry
        }),
{
    let p = keyed::<HistoryEntry>(quote.code);
    lemma_first_where_bounds(history.entries, p);
    let i = history.index(quote.code);
    if i < history.entries.len() {
        assert(p(history.entries[i]));
    }
    assert(entry.code == quote.code);
    assert(quote.code.push('x').len() != quote.code.len());
    entry_reads_back(history, entry, quote.code.push('x'));
}

/// A gap keeps the bars and drops what traded since, which the next fetch brings; a fetch that was
/// begun before it leaves the bars to be fetched again.
pub proof fn gap_outdates_a_fetch(entry: EntryView, bars: Seq<Candle>)
    ensures
        ({
            let after = entry.gapped();
            &&& after.needs_backfill
            &&& after.bars == entry.bars
            &&& after.pending.len() == 0
            &&& after.code == entry.code
            &&& after.last_trade_day is None && after.last_trade_sequence is None
            &&& after.generation != entry.generation
            &&& after.fetched(entry.generation, bars).needs_backfill
            &&& !after.fetched(after.generation, bars).needs_backfill
        }),
{
}

/// Whether a bar has a time, and it is in the minute of another.
pub open spec fn of_minute(bar: Candle, made: Candle) -> bool {
    bar.time > 0 && made.time <= bar.time < made.time + 60
}

/// Whether a bar begins on a minute, and each of its prices is one of a bar of that minute.
pub open spec fn made_of_minute(bars: Seq<Candle>, made: Candle) -> bool {
    &&& made.time as int % 60 == 0
    &&& exists|j: int|
        0 <= j < bars.len() && of_minute(#[trigger] bars[j], made) && bars[j].open == made.open
    &&& exists|j: int|
        0 <= j < bars.len() && of_minute(#[trigger] bars[j], made) && bars[j].high == made.high
    &&& exists|j: int|
        0 <= j < bars.len() && of_minute(#[trigger] bars[j], made) && bars[j].low == made.low
    &&& exists|j: int|
        0 <= j < bars.len() && of_minute(#[trigger] bars[j], made) && bars[j].close == made.close
}

/// A bar at the start of its minute.
spec fn at_minute(bar: Candle) -> Candle {
    Candle { time: bucket_of(bar.time as int, 60) as i64, ..bar }
}

/// Whether a bar is one of those with a time, at the start of its minute.
spec fn is_counted(bars: Seq<Candle>, bar: Candle) -> bool {
    exists|j: int| 0 <= j < bars.len() && (#[trigger] bars[j]).time > 0 && at_minute(bars[j]) == bar
}

proof fn lemma_counted(bars: Seq<Candle>)
    ensures
        forall|j: int|
            0 <= j < bars.len() && (#[trigger] bars[j]).time > 0 ==> filter_mapped(
                bars,
                counted(),
            ).contains(at_minute(bars[j])),
        forall|m: int|
            0 <= m < filter_mapped(bars, counted()).len() ==> is_counted(
                bars,
                #[trigger] filter_mapped(bars, counted())[m],
            ),
    decreases bars.len(),
{
    let minutes = filter_mapped(bars, counted());
    if bars.len() > 0 {
        let init = bars.drop_last();
        let rest = filter_mapped(init, counted());
        lemma_counted(init);
        assert forall|j: int| 0 <= j < bars.len() && (#[trigger] bars[j]).time > 0 implies
            minutes.contains(at_minute(bars[j])) by {
            if j < init.len() {
                assert(init[j] == bars[j]);
                let m = choose|m: int| 0 <= m < rest.len() && rest[m] == at_minute(bars[j]);
                assert(minutes[m] == rest[m]);
            } else {
                assert(minutes[rest.len() as int] == at_minute(bars[j]));
            }
        }
        assert forall|m: int| 0 <= m < minutes.len() implies is_counted(
            bars,
            #[trigger] minutes[m],
        ) by {
            if m < rest.len() {
                assert(is_counted(init, rest[m]));
                let j = choose|j: int|
                    0 <= j < init.len() && (#[trigger] init[j]).time > 0 && at_minute(init[j])
                        == rest[m];
                assert(bars[j] == init[j]);
            } else {
                assert(at_minute(bars[bars.len() - 1]) == minutes[m]);
            }
        }
    }
}

proof fn lemma_one_of_minute(bars: Seq<Candle>, made: Candle, bar: Candle) -> (j: int)
    requires
        in_bucket(filter_mapped(bars, counted()), bar, made.time as int, 60),
    ensures
        0 <= j < bars.len(),
        of_minute(bars[j], made),
        at_minute(bars[j]) == bar,
{
    let minutes = filter_mapped(bars, counted());
    lemma_counted(bars);
    let m = choose|m: int| 0 <= m < minutes.len() && minutes[m] == bar;
    let j = choose|j: int|
        0 <= j < bars.len() && (#[trigger] bars[j]).time > 0 && at_minute(bars[j]) == minutes[m];
    j
}

proof fn lemma_made_of_minute(bars: Seq<Candle>, made: Candle)
    requires
        sums_up(filter_mapped(bars, counted()), made, 60),
    ensures
        made_of_minute(bars, made),
{
    let minutes = filter_mapped(bars, counted());
    let start = made.time as int;
    let o = choose|b: Candle| #[trigger] opens_bucket(minutes, b, start, 60) && b.open == made.open;
    let c = choose|b: Candle| #[trigger]
        closes_bucket(minutes, b, start, 60) && b.close == made.close;
    let h = choose|b: Candle| #[trigger] in_bucket(minutes, b, start, 60) && b.high == made.high;
    let l = choose|b: Candle| #[trigger] in_bucket(minutes, b, start, 60) && b.low == made.low;
    let jo = lemma_one_of_minute(bars, made, o);
    let jc = lemma_one_of_minute(bars, made, c);
    let jh = lemma_one_of_minute(bars, made, h);
    let jl = lemma_one_of_minute(bars, made, l);
    assert(bars[jo].open == made.open);
    assert(bars[jc].close == made.close);
    assert(bars[jh].high == made.high);
    assert(bars[jl].low == made.low);
}

proof fn lemma_bucket_volume_bound(bars: Seq<Candle>, start: int, seconds: int, m: int)
    requires
        0 <= m < bars.len(),
        bucket_of(bars[m].time as int, seconds) == start,
    ensures
        bucket_volume(bars, start, seconds) >= bars[m].volume,
    decreases bars.len(),
{
    let init = bars.drop_last();
    lemma_bucket_volume_counts(init, start, seconds);
    if m < init.len() {
        assert(init[m] == bars[m]);
        lemma_bucket_volume_bound(init, start, seconds, m);
    }
}

proof fn lemma_bucket_volume_counts(bars: Seq<Candle>, start: int, seconds: int)
    ensures
        bucket_volume(bars, start, seconds) >= 0,
    decreases bars.len(),
{
    if bars.len() > 0 {
        lemma_bucket_volume_counts(bars.drop_last(), start, seconds);
    }
}

/// Fetched bars are put in order, one for each minute that has one with a time: it sums up the bars
/// of the minute. Of more than the most, the last are taken.
pub proof fn fetched_bars_sum_up_their_minutes(bars: Seq<Candle>)
    ensures
        ({
            let kept = normalized(bars);
            &&& kept.len() <= 2_400
            &&& forall|i: int, j: int|
                #![trigger kept[i], kept[j]]
                0 <= i < j < kept.len() ==> kept[i].time < kept[j].time
            &&& forall|i: int, j: int|
                #![trigger kept[i], bars[j]]
                0 <= i < kept.len() && 0 <= j < bars.len() && bars[j].time > 0 && kept[i].time
                    <= bars[j].time < kept[i].time + 60 ==> {
                    &&& kept[i].high >= bars[j].high
                    &&& kept[i].low <= bars[j].low
                    &&& kept[i].volume >= bars[j].volume
                }
            &&& forall|i: int|
                0 <= i < kept.len() ==> made_of_minute(bars, #[trigger] kept[i])
            &&& forall|j: int|
                0 <= j < bars.len() && (#[trigger] bars[j]).time > 0 && (kept.len() < 2_400
                    || kept[0].time <= bars[j].time) ==> has_minute(
                    kept,
                    (bars[j].time - bars[j].time % 60) as i64,
                )
        }),
{
    let kept = normalized(bars);
    lemma_normalized(bars);
    lemma_trimmed_length(bars);
    assert forall|i: int| 0 <= i < kept.len() implies made_of_minute(bars, #[trigger] kept[i]) by {
        lemma_kept_bar(bars, i);
        lemma_made_of_minute(bars, kept[i]);
    }
    assert forall|i: int, j: int|
        #![trigger kept[i], bars[j]]
        0 <= i < kept.len() && 0 <= j < bars.len() && bars[j].time > 0 && kept[i].time
            <= bars[j].time < kept[i].time + 60 implies {
        &&& kept[i].high >= bars[j].high
        &&& kept[i].low <= bars[j].low
        &&& kept[i].volume >= bars[j].volume
    } by {
        lemma_kept_bar(bars, i);
        lemma_reaches_its_minute(bars, kept[i], j);
    }
    assert forall|j: int|
        0 <= j < bars.len() && (#[trigger] bars[j]).time > 0 && (kept.len() < 2_400
            || kept[0].time <= bars[j].time) implies has_minute(
        kept,
        (bars[j].time - bars[j].time % 60) as i64,
    ) by {
        lemma_kept_minute(bars, j);
    }
}

proof fn lemma_trimmed_length(bars: Seq<Candle>)
    ensures
        normalized(bars).len() <= 2_400,
{
}

proof fn lemma_kept_bar(bars: Seq<Candle>, i: int)
    requires
        0 <= i < normalized(bars).len(),
    ensures
        sums_up(filter_mapped(bars, counted()), normalized(bars)[i], 60),
        normalized(bars)[i].time as int % 60 == 0,
{
    let minutes = filter_mapped(bars, counted());
    let g = aggregated(minutes, 1);
    lemma_filtered_datable(bars);
    aggregation_is_ordered(minutes, 1);
    aggregation_sums_up_buckets(minutes, 1);
    let d = if g.len() > 2_400 {
        g.len() - 2_400
    } else {
        0
    };
    assert(normalized(bars)[i] == g[i + d]);
    assert(sums_up(minutes, g[i + d], 60));
    assert(g[i + d].time % 60 == 0);
}

proof fn lemma_kept_minute(bars: Seq<Candle>, j: int)
    requires
        0 <= j < bars.len(),
        bars[j].time > 0,
        normalized(bars).len() < 2_400 || normalized(bars)[0].time <= bars[j].time,
    ensures
        has_minute(normalized(bars), (bars[j].time - bars[j].time % 60) as i64),
{
    let minutes = filter_mapped(bars, counted());
    let g = aggregated(minutes, 1);
    let kept = normalized(bars);
    lemma_filtered_datable(bars);
    aggregation_is_ordered(minutes, 1);
    let d = if g.len() > 2_400 {
        g.len() - 2_400
    } else {
        0
    };
    let i = lemma_minute_is_there(bars, j);
    if i < d {
        assert(kept[0] == g[d]);
        assert(g[i].time < g[d].time);
        assert(g[d].time % 60 == 0);
        assert(g[i].time % 60 == 0);
    }
    assert(kept[i - d] == g[i]);
}

proof fn lemma_reaches_its_minute(bars: Seq<Candle>, made: Candle, j: int)
    requires
        sums_up(filter_mapped(bars, counted()), made, 60),
        made.time as int % 60 == 0,
        0 <= j < bars.len(),
        of_minute(bars[j], made),
    ensures
        made.high >= bars[j].high,
        made.low <= bars[j].low,
        made.volume >= bars[j].volume,
{
    let minutes = filter_mapped(bars, counted());
    lemma_counted(bars);
    let m = choose|m: int| 0 <= m < minutes.len() && minutes[m] == at_minute(bars[j]);
    assert(in_bucket(minutes, minutes[m], made.time as int, 60));
    lemma_bucket_volume_bound(minutes, made.time as int, 60, m);
}

proof fn lemma_minute_is_there(bars: Seq<Candle>, j: int) -> (i: int)
    requires
        0 <= j < bars.len(),
        bars[j].time > 0,
    ensures
        0 <= i < aggregated(filter_mapped(bars, counted()), 1).len(),
        aggregated(filter_mapped(bars, counted()), 1)[i].time == bars[j].time - bars[j].time % 60,
{
    let minutes = filter_mapped(bars, counted());
    let g = aggregated(minutes, 1);
    lemma_counted(bars);
    lemma_filtered_datable(bars);
    let m = choose|m: int| 0 <= m < minutes.len() && minutes[m] == at_minute(bars[j]);
    aggregation_leaves_no_bar_out(minutes, 1, m);
    choose|i: int|
        0 <= i < g.len() && (#[trigger] g[i]).time == bucket_of(minutes[m].time as int, 60)
}

} // verus!
