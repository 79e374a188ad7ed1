//! Bars of a longer interval out of one-minute bars, and the averages over them.

use vstd::prelude::*;

use crate::seqs::{filter_mapped, first_where, lemma_filter_mapped_step, lemma_first_where};
use crate::types::{Candle, Ratio};

verus! {

/// Number of completed bars that a payload holds.
pub const PAYLOAD_BARS: usize = 30;

/// When the bucket of a time begins.
pub open spec fn bucket_of(time: int, seconds: int) -> int {
    time - time % seconds
}

/// The bucket of a time begins at a time that can be counted.
pub open spec fn datable(time: int, seconds: int) -> bool {
    i64::MIN <= bucket_of(time, seconds)
}

pub open spec fn all_datable(bars: Seq<Candle>, seconds: int) -> bool {
    forall|i: int| 0 <= i < bars.len() ==> datable((#[trigger] bars[i]).time as int, seconds)
}

fn bucket_start(time: i64, seconds: i64) -> (start: i64)
    requires
        0 < seconds,
        datable(time as int, seconds as int),
    ensures
        start == bucket_of(time as int, seconds as int),
        start <= time < start + seconds,
{
    let into: i64 = match time.checked_rem_euclid(seconds) {
        Some(into) => into,
        None => 0,
    };
    time - into
}

/// Bars with one more, after all that are not later.
pub open spec fn with_bar(sorted: Seq<Candle>, bar: Candle) -> Seq<Candle> {
    sorted.insert(first_where(sorted, |b: Candle| b.time > bar.time), bar)
}

/// The bars in the order of their times; bars of one time stay as they were.
pub open spec fn by_time(bars: Seq<Candle>) -> Seq<Candle>
    decreases bars.len(),
{
    if bars.len() == 0 {
        bars
    } else {
        with_bar(by_time(bars.drop_last()), bars.last())
    }
}

pub open spec fn ascending(bars: Seq<Candle>) -> bool {
    forall|i: int, j: int| 0 <= i <= j < bars.len() ==> (#[trigger] bars[i]).time <= (
    #[trigger] bars[j]).time
}

proof fn lemma_with_bar(sorted: Seq<Candle>, bar: Candle)
    requires
        ascending(sorted),
    ensures
        ascending(with_bar(sorted, bar)),
        with_bar(sorted, bar).len() == sorted.len() + 1,
        forall|seconds: int|
            all_datable(sorted, seconds) && datable(bar.time as int, seconds)
                ==> #[trigger] all_datable(with_bar(sorted, bar), seconds),
        with_bar(sorted, bar).to_multiset() =~= sorted.to_multiset().insert(bar),
{
    let p = |b: Candle| b.time > bar.time;
    crate::seqs::lemma_first_where_bounds(sorted, p);
    let k = first_where(sorted, p);
    let w = with_bar(sorted, bar);
    assert forall|i: int, j: int| 0 <= i <= j < w.len() implies (#[trigger] w[i]).time <= (
    #[trigger] w[j]).time by {
        if i < k {
            assert(!p(sorted[i]));
        }
        if j > k {
            assert(p(sorted[k]));
            assert(sorted[k].time <= sorted[j - 1].time);
        }
    }
    assert forall|seconds: int|
        all_datable(sorted, seconds) && datable(bar.time as int, seconds) implies #[trigger] all_datable(
        w,
        seconds,
    ) by {
        assert forall|i: int| 0 <= i < w.len() implies datable(
            (#[trigger] w[i]).time as int,
            seconds,
        ) by {
            if i < k {
                assert(w[i] == sorted[i]);
            } else if i > k {
                assert(w[i] == sorted[i - 1]);
            }
        }
    }
    broadcast use vstd::seq_lib::group_to_multiset_ensures;

    assert(w.to_multiset() =~= sorted.to_multiset().insert(bar));
}

/// Ordering by time loses and adds no bar, and orders them.
pub proof fn by_time_orders(bars: Seq<Candle>)
    ensures
        ascending(by_time(bars)),
        by_time(bars).len() == bars.len(),
        by_time(bars).to_multiset() =~= bars.to_multiset(),
        forall|seconds: int|
            all_datable(bars, seconds) ==> #[trigger] all_datable(by_time(bars), seconds),
    decreases bars.len(),
{
    if bars.len() > 0 {
        by_time_orders(bars.drop_last());
        lemma_with_bar(by_time(bars.drop_last()), bars.last());
        broadcast use vstd::seq_lib::group_to_multiset_ensures;

        assert(bars.drop_last().push(bars.last()) =~= bars);
        assert(bars.to_multiset() =~= bars.drop_last().to_multiset().insert(bars.last()));
        assert forall|seconds: int| all_datable(bars, seconds) implies #[trigger] all_datable(
            by_time(bars),
            seconds,
        ) by {
            assert(all_datable(bars.drop_last(), seconds)) by {
                assert forall|i: int| 0 <= i < bars.drop_last().len() implies datable(
                    (#[trigger] bars.drop_last()[i]).time as int,
                    seconds,
                ) by {
                    assert(datable(bars[i].time as int, seconds));
                }
            }
            assert(datable(bars[bars.len() - 1].time as int, seconds));
            assert(all_datable(by_time(bars.drop_last()), seconds));
        }
    }
}

/// Puts bars in the order of their times.
pub fn sort_by_time(bars: &[Candle]) -> (sorted: Vec<Candle>)
    ensures
        sorted@ == by_time(bars@),
{
    let mut sorted: Vec<Candle> = Vec::new();
    let mut i: usize = 0;
    assert(bars@.take(0) =~= Seq::empty());
    while i < bars.len()
        invariant
            i <= bars@.len(),
            sorted@ == by_time(bars@.take(i as int)),
        decreases bars@.len() - i,
    {
        let bar = bars[i];
        let ghost before = sorted@;
        let ghost p = |b: Candle| b.time > bar.time;
        proof {
            by_time_orders(bars@.take(i as int));
            assert(bars@.take(i + 1).drop_last() =~= bars@.take(i as int));
        }
        let mut at: usize = sorted.len();
        while at > 0 && sorted[at - 1].time > bar.time
            invariant
                at <= sorted@.len(),
                sorted@ == before,
                p == (|b: Candle| b.time > bar.time),
                forall|j: int| at <= j < sorted@.len() ==> p(#[trigger] sorted@[j]),
            decreases at,
        {
            at -= 1;
        }
        proof {
            assert forall|j: int| 0 <= j < at implies !p(#[trigger] before[j]) by {
                assert(before[j].time <= before[at - 1].time);
            }
            lemma_first_where(before, p, at as int);
        }
        sorted.insert(at, bar);
        i += 1;
    }
    assert(bars@.take(i as int) =~= bars@);
    sorted
}

pub open spec fn capped_sum(a: u64, b: u64) -> u64 {
    if a + b <= u64::MAX {
        (a + b) as u64
    } else {
        u64::MAX
    }
}

/// A bar that goes on with another of the same bucket.
pub open spec fn continued(last: Candle, bar: Candle) -> Candle {
    Candle {
        high: if bar.high > last.high {
            bar.high
        } else {
            last.high
        },
        low: if bar.low < last.low {
            bar.low
        } else {
            last.low
        },
        close: bar.close,
        volume: capped_sum(last.volume, bar.volume),
        ..last
    }
}

/// Bars of a longer interval: each goes on while bars of its bucket come.
pub open spec fn grouped(bars: Seq<Candle>, seconds: int) -> Seq<Candle>
    decreases bars.len(),
{
    if bars.len() == 0 {
        bars
    } else {
        let rest = grouped(bars.drop_last(), seconds);
        let bar = bars.last();
        let bucket = bucket_of(bar.time as int, seconds) as i64;
        if rest.len() > 0 && rest.last().time == bucket {
            rest.update(rest.len() - 1, continued(rest.last(), bar))
        } else {
            rest.push(Candle { time: bucket, ..bar })
        }
    }
}

proof fn lemma_total_bounds(bars: Seq<Candle>, i: int)
    requires
        0 <= i < bars.len(),
    ensures
        0 <= total_volume(bars.drop_last()),
        bars[i].volume <= total_volume(bars),
    decreases bars.len(),
{
    let init = bars.drop_last();
    if init.len() > 0 {
        lemma_total_bounds(init, 0);
        if i < bars.len() - 1 {
            lemma_total_bounds(init, i);
            assert(init[i] == bars[i]);
        }
    }
    assert(total_volume(bars) == total_volume(init) + bars.last().volume);
}

proof fn lemma_total_insert(bars: Seq<Candle>, k: int, bar: Candle)
    requires
        0 <= k <= bars.len(),
    ensures
        total_volume(bars.insert(k, bar)) == total_volume(bars) + bar.volume,
    decreases bars.len(),
{
    let w = bars.insert(k, bar);
    if k == bars.len() {
        assert(w.drop_last() =~= bars);
    } else {
        assert(w.drop_last() =~= bars.drop_last().insert(k, bar));
        lemma_total_insert(bars.drop_last(), k, bar);
    }
}

proof fn lemma_total_by_time(bars: Seq<Candle>)
    ensures
        total_volume(by_time(bars)) == total_volume(bars),
    decreases bars.len(),
{
    if bars.len() > 0 {
        let sorted = by_time(bars.drop_last());
        let p = |b: Candle| b.time > bars.last().time;
        lemma_total_by_time(bars.drop_last());
        crate::seqs::lemma_first_where_bounds(sorted, p);
        lemma_total_insert(sorted, first_where(sorted, p), bars.last());
    }
}

proof fn lemma_total_grouped(bars: Seq<Candle>, seconds: int)
    requires
        total_volume(bars) <= u64::MAX,
    ensures
        total_volume(grouped(bars, seconds)) == total_volume(bars),
    decreases bars.len(),
{
    if bars.len() > 0 {
        let rest = grouped(bars.drop_last(), seconds);
        let bar = bars.last();
        lemma_total_bounds(bars, bars.len() - 1);
        lemma_total_grouped(bars.drop_last(), seconds);
        let g = grouped(bars, seconds);
        if rest.len() > 0 && rest.last().time == bucket_of(bar.time as int, seconds) as i64 {
            lemma_total_bounds(rest, rest.len() - 1);
            assert(g.drop_last() =~= rest.drop_last());
        } else {
            assert(g.drop_last() =~= rest);
        }
    }
}

/// The bars of an interval of some minutes.
pub open spec fn aggregated(one_minute: Seq<Candle>, interval_minutes: u32) -> Seq<Candle> {
    if interval_minutes == 0 {
        Seq::empty()
    } else {
        grouped(by_time(one_minute), interval_minutes * 60)
    }
}

/// Aggregation loses no trade: the bars of any interval have the volume of those they come from,
/// where that can be counted.
pub proof fn aggregation_conserves_volume(one_minute: Seq<Candle>, interval_minutes: u32)
    requires
        interval_minutes > 0,
        total_volume(one_minute) <= u64::MAX,
    ensures
        total_volume(aggregated(one_minute, interval_minutes)) == total_volume(one_minute),
{
    lemma_total_by_time(one_minute);
    lemma_total_grouped(by_time(one_minute), interval_minutes * 60);
}

/// Aggregates one-minute bars, in whatever order they come.
pub fn aggregate_candles(one_minute: &[Candle], interval_minutes: u32) -> (bars: Vec<Candle>)
    requires
        interval_minutes > 0 ==> all_datable(one_minute@, interval_minutes * 60),
    ensures
        bars@ == aggregated(one_minute@, interval_minutes),
{
    let mut out: Vec<Candle> = Vec::new();
    if interval_minutes == 0 {
        assert(out@ =~= Seq::empty());
        return out;
    }
    let source = sort_by_time(one_minute);
    proof {
        by_time_orders(one_minute@);
    }
    let seconds: i64 = interval_minutes as i64 * 60;
    let mut i: usize = 0;
    assert(source@.take(0) =~= Seq::empty());
    while i < source.len()
        invariant
            i <= source@.len(),
            all_datable(source@, seconds as int),
            0 < seconds,
            out@ == grouped(source@.take(i as int), seconds as int),
        decreases source@.len() - i,
    {
        let bar = source[i];
        let bucket: i64 = bucket_start(bar.time, seconds);
        assert(source@.take(i + 1).drop_last() =~= source@.take(i as int));
        let n: usize = out.len();
        if n > 0 && out[n - 1].time == bucket {
            let last = out[n - 1];
            let high: u64 = if bar.high > last.high {
                bar.high
            } else {
                last.high
            };
            let low: u64 = if bar.low < last.low {
                bar.low
            } else {
                last.low
            };
            let volume: u64 = last.volume.saturating_add(bar.volume);
            out.set(n - 1, Candle { high, low, close: bar.close, volume, ..last });
        } else {
            out.push(Candle { time: bucket, ..bar });
        }
        i += 1;
    }
    assert(source@.take(i as int) =~= source@);
    out
}

proof fn lemma_bucket_order(a: int, b: int, seconds: int)
    requires
        a <= b,
        seconds > 0,
    ensures
        bucket_of(a, seconds) <= bucket_of(b, seconds),
{
    vstd::arithmetic::div_mod::lemma_fundamental_div_mod(a, seconds);
    vstd::arithmetic::div_mod::lemma_fundamental_div_mod(b, seconds);
    vstd::arithmetic::div_mod::lemma_div_is_ordered(a, b, seconds);
    assert(seconds * (a / seconds) <= seconds * (b / seconds)) by (nonlinear_arith)
        requires
            a / seconds <= b / seconds,
            seconds > 0,
    ;
}

proof fn lemma_grouped_ordered(bars: Seq<Candle>, seconds: int)
    requires
        ascending(bars),
        all_datable(bars, seconds),
        0 < seconds <= 0x40_0000_0000,
    ensures
        ({
            let g = grouped(bars, seconds);
            &&& forall|i: int, j: int|
                0 <= i < j < g.len() ==> (#[trigger] g[i]).time < (#[trigger] g[j]).time
            &&& forall|i: int| 0 <= i < g.len() ==> (#[trigger] g[i]).time % seconds as i64 == 0
            &&& bars.len() > 0 ==> g.len() > 0 && g.last().time == bucket_of(
                bars.last().time as int,
                seconds,
            )
            &&& g.len() <= bars.len()
        }),
    decreases bars.len(),
{
    if bars.len() > 0 {
        let init = bars.drop_last();
        assert(ascending(init)) by {
            assert forall|i: int, j: int| 0 <= i <= j < init.len() implies (#[trigger] init[i]).time
                <= (#[trigger] init[j]).time by {
                assert(bars[i].time <= bars[j].time);
            }
        }
        assert(all_datable(init, seconds)) by {
            assert forall|i: int| 0 <= i < init.len() implies datable(
                (#[trigger] init[i]).time as int,
                seconds,
            ) by {
                assert(datable(bars[i].time as int, seconds));
            }
        }
        lemma_grouped_ordered(init, seconds);
        let g = grouped(bars, seconds);
        let r = grouped(init, seconds);
        let t = bars.last().time as int;
        assert(datable(bars[bars.len() - 1].time as int, seconds));
        let bucket = bucket_of(t, seconds);
        assert(bucket % seconds == 0) by {
            vstd::arithmetic::div_mod::lemma_fundamental_div_mod(t, seconds);
            vstd::arithmetic::div_mod::lemma_mod_multiples_basic(t / seconds, seconds);
            assert(bucket == (t / seconds) * seconds) by (nonlinear_arith)
                requires
                    t == seconds * (t / seconds) + t % seconds,
                    bucket == t - t % seconds,
            ;
        }
        if r.len() > 0 {
            assert(init.len() > 0);
            assert(bars[init.len() - 1].time <= bars[bars.len() - 1].time);
            lemma_bucket_order(init.last().time as int, t, seconds);
        }
        assert forall|i: int, j: int| 0 <= i < j < g.len() implies (#[trigger] g[i]).time < (
        #[trigger] g[j]).time by {
            if j < r.len() {
                assert(r[i].time < r[j].time);
            } else if i < r.len() - 1 {
                assert(r[i].time < r[r.len() - 1].time);
            }
        }
        assert forall|i: int| 0 <= i < g.len() implies (#[trigger] g[i]).time % seconds as i64
            == 0 by {
            if i < r.len() {
                assert(r[i].time % seconds as i64 == 0);
            }
        }
    }
}

/// The bars of an interval come in order, begin on a whole interval, and no two begin together.
pub proof fn aggregation_is_ordered(one_minute: Seq<Candle>, interval_minutes: u32)
    requires
        interval_minutes > 0,
        all_datable(one_minute, interval_minutes * 60),
    ensures
        ({
            let g = aggregated(one_minute, interval_minutes);
            &&& forall|i: int, j: int|
                0 <= i < j < g.len() ==> (#[trigger] g[i]).time < (#[trigger] g[j]).time
            &&& forall|i: int|
                0 <= i < g.len() ==> (#[trigger] g[i]).time % (interval_minutes * 60) as i64 == 0
            &&& g.len() <= one_minute.len()
        }),
{
    by_time_orders(one_minute);
    lemma_grouped_ordered(by_time(one_minute), interval_minutes * 60);
}

/// The bars have distinct times.
pub open spec fn distinct_times(bars: Seq<Candle>) -> bool {
    forall|i: int, j: int|
        0 <= i < j < bars.len() ==> (#[trigger] bars[i]).time != (#[trigger] bars[j]).time
}

pub open spec fn rising(bars: Seq<Candle>) -> bool {
    forall|i: int, j: int|
        0 <= i < j < bars.len() ==> (#[trigger] bars[i]).time < (#[trigger] bars[j]).time
}

proof fn lemma_by_time_contains(bars: Seq<Candle>, bar: Candle)
    ensures
        by_time(bars).contains(bar) <==> bars.contains(bar),
{
    broadcast use vstd::seq_lib::group_to_multiset_ensures;

    by_time_orders(bars);
    assert(by_time(bars).contains(bar) <==> by_time(bars).to_multiset().count(bar) > 0);
    assert(bars.contains(bar) <==> bars.to_multiset().count(bar) > 0);
}

proof fn lemma_by_time_rises(bars: Seq<Candle>)
    requires
        distinct_times(bars),
    ensures
        rising(by_time(bars)),
    decreases bars.len(),
{
    if bars.len() > 0 {
        let init = bars.drop_last();
        let bar = bars.last();
        assert(distinct_times(init)) by {
            assert forall|i: int, j: int| 0 <= i < j < init.len() implies (#[trigger] init[i]).time
                != (#[trigger] init[j]).time by {
                assert(bars[i].time != bars[j].time);
            }
        }
        lemma_by_time_rises(init);
        by_time_orders(init);
        let sorted = by_time(init);
        let p = |b: Candle| b.time > bar.time;
        crate::seqs::lemma_first_where_bounds(sorted, p);
        let k = first_where(sorted, p);
        let w = with_bar(sorted, bar);
        assert forall|i: int| 0 <= i < sorted.len() implies (#[trigger] sorted[i]).time
            != bar.time by {
            lemma_by_time_contains(init, sorted[i]);
            let j = choose|j: int| 0 <= j < init.len() && init[j] == sorted[i];
            assert(bars[j].time != bars[bars.len() - 1].time);
        }
        assert forall|i: int, j: int| 0 <= i < j < w.len() implies (#[trigger] w[i]).time < (
        #[trigger] w[j]).time by {
            if i < k {
                assert(!p(sorted[i]));
                assert(sorted[i].time != bar.time);
            }
            if j > k {
                assert(p(sorted[k]));
                assert(sorted[k].time <= sorted[j - 1].time);
            }
        }
    }
}

proof fn lemma_rising_is_unique(a: Seq<Candle>, b: Seq<Candle>)
    requires
        rising(a),
        rising(b),
        a.to_multiset() == b.to_multiset(),
    ensures
        a == b,
    decreases a.len(),
{
    broadcast use vstd::seq_lib::group_to_multiset_ensures;

    assert(a.to_multiset().len() == a.len());
    assert(b.to_multiset().len() == b.len());
    if a.len() > 0 {
        let n = a.len() - 1;
        assert(a.to_multiset().count(a[n]) > 0);
        assert(b.to_multiset().count(b[n]) > 0);
        assert(b.contains(a[n]));
        assert(a.contains(b[n]));
        let i = choose|i: int| 0 <= i < b.len() && b[i] == a[n];
        let j = choose|j: int| 0 <= j < a.len() && a[j] == b[n];
        if i < n {
            assert(b[i].time < b[n].time);
            if j < n {
                assert(a[j].time < a[n].time);
            }
        }
        assert(a[n] == b[n]);
        let x = a.drop_last();
        let y = b.drop_last();
        assert(x.push(a[n]) =~= a);
        assert(y.push(b[n]) =~= b);
        assert(a.to_multiset() =~= x.to_multiset().insert(a[n]));
        assert(b.to_multiset() =~= y.to_multiset().insert(a[n]));
        assert(x.to_multiset() =~= a.to_multiset().remove(a[n]));
        assert(y.to_multiset() =~= b.to_multiset().remove(a[n]));
        assert(rising(x)) by {
            assert forall|i: int, j: int| 0 <= i < j < x.len() implies (#[trigger] x[i]).time < (
            #[trigger] x[j]).time by {
                assert(a[i].time < a[j].time);
            }
        }
        assert(rising(y)) by {
            assert forall|i: int, j: int| 0 <= i < j < y.len() implies (#[trigger] y[i]).time < (
            #[trigger] y[j]).time by {
                assert(b[i].time < b[j].time);
            }
        }
        lemma_rising_is_unique(x, y);
        assert(a =~= b);
    } else {
        assert(a =~= b);
    }
}

/// Bars of distinct times aggregate alike in whatever order they come.
pub proof fn aggregation_ignores_order(a: Seq<Candle>, b: Seq<Candle>, interval_minutes: u32)
    requires
        distinct_times(a),
        distinct_times(b),
        a.to_multiset() == b.to_multiset(),
    ensures
        aggregated(a, interval_minutes) == aggregated(b, interval_minutes),
{
    by_time_orders(a);
    by_time_orders(b);
    lemma_by_time_rises(a);
    lemma_by_time_rises(b);
    lemma_rising_is_unique(by_time(a), by_time(b));
}

/// A bar is one of those whose bucket begins at `start`.
pub open spec fn in_bucket(bars: Seq<Candle>, bar: Candle, start: int, seconds: int) -> bool {
    bars.contains(bar) && bucket_of(bar.time as int, seconds) == start
}

/// No bar of the bucket is earlier.
pub open spec fn opens_bucket(bars: Seq<Candle>, bar: Candle, start: int, seconds: int) -> bool {
    in_bucket(bars, bar, start, seconds) && forall|b: Candle| #[trigger]
        in_bucket(bars, b, start, seconds) ==> bar.time <= b.time
}

/// No bar of the bucket is later.
pub open spec fn closes_bucket(bars: Seq<Candle>, bar: Candle, start: int, seconds: int) -> bool {
    in_bucket(bars, bar, start, seconds) && forall|b: Candle| #[trigger]
        in_bucket(bars, b, start, seconds) ==> b.time <= bar.time
}

/// The volume of the bars of a bucket.
pub open spec fn bucket_volume(bars: Seq<Candle>, start: int, seconds: int) -> int
    decreases bars.len(),
{
    if bars.len() == 0 {
        0
    } else {
        bucket_volume(bars.drop_last(), start, seconds) + if bucket_of(
            bars.last().time as int,
            seconds,
        ) == start {
            bars.last().volume as int
        } else {
            0
        }
    }
}

/// A bar sums up a bucket: it has the open of an earliest and the close of a latest of its bars, the
/// highest high, the lowest low, and their volume, as far as that can be counted.
pub open spec fn sums_up(bars: Seq<Candle>, made: Candle, seconds: int) -> bool {
    let start = made.time as int;
    let volume = bucket_volume(bars, start, seconds);
    &&& exists|b: Candle| #[trigger] opens_bucket(bars, b, start, seconds) && b.open == made.open
    &&& exists|b: Candle| #[trigger] closes_bucket(bars, b, start, seconds) && b.close == made.close
    &&& exists|b: Candle| #[trigger] in_bucket(bars, b, start, seconds) && b.high == made.high
    &&& exists|b: Candle| #[trigger] in_bucket(bars, b, start, seconds) && b.low == made.low
    &&& forall|b: Candle| #[trigger]
        in_bucket(bars, b, start, seconds) ==> made.low <= b.low && b.high <= made.high
    &&& made.volume == (if volume <= u64::MAX {
        volume
    } else {
        u64::MAX as int
    })
}

proof fn lemma_push_contains(bars: Seq<Candle>, bar: Candle)
    ensures
        forall|b: Candle| #[trigger]
            bars.push(bar).contains(b) <==> bars.contains(b) || b == bar,
{
    let w = bars.push(bar);
    assert forall|b: Candle| #[trigger] w.contains(b) <==> bars.contains(b) || b == bar by {
        if bars.contains(b) {
            let i = choose|i: int| 0 <= i < bars.len() && bars[i] == b;
            assert(w[i] == b);
        }
        if b == bar {
            assert(w[bars.len() as int] == b);
        }
        if w.contains(b) {
            let i = choose|i: int| 0 <= i < w.len() && w[i] == b;
            if i < bars.len() {
                assert(bars[i] == b);
            }
        }
    }
}

proof fn lemma_bucket_volume_none(bars: Seq<Candle>, start: int, seconds: int)
    requires
        forall|i: int|
            0 <= i < bars.len() ==> bucket_of((#[trigger] bars[i]).time as int, seconds) != start,
    ensures
        bucket_volume(bars, start, seconds) == 0,
    decreases bars.len(),
{
    if bars.len() > 0 {
        assert(bucket_of(bars[bars.len() - 1].time as int, seconds) != start);
        assert forall|i: int| 0 <= i < bars.drop_last().len() implies bucket_of(
            (#[trigger] bars.drop_last()[i]).time as int,
            seconds,
        ) != start by {
            assert(bucket_of(bars[i].time as int, seconds) != start);
        }
        lemma_bucket_volume_none(bars.drop_last(), start, seconds);
    }
}

proof fn lemma_bucket_volume_insert(
    bars: Seq<Candle>,
    k: int,
    bar: Candle,
    start: int,
    seconds: int,
)
    requires
        0 <= k <= bars.len(),
    ensures
        bucket_volume(bars.insert(k, bar), start, seconds) == bucket_volume(bars, start, seconds)
            + if bucket_of(bar.time as int, seconds) == start {
            bar.volume as int
        } else {
            0
        },
    decreases bars.len(),
{
    let w = bars.insert(k, bar);
    if k == bars.len() {
        assert(w.drop_last() =~= bars);
    } else {
        assert(w.drop_last() =~= bars.drop_last().insert(k, bar));
        lemma_bucket_volume_insert(bars.drop_last(), k, bar, start, seconds);
    }
}

proof fn lemma_bucket_volume_by_time(bars: Seq<Candle>, start: int, seconds: int)
    ensures
        bucket_volume(by_time(bars), start, seconds) == bucket_volume(bars, start, seconds),
    decreases bars.len(),
{
    if bars.len() > 0 {
        let sorted = by_time(bars.drop_last());
        let p = |b: Candle| b.time > bars.last().time;
        lemma_bucket_volume_by_time(bars.drop_last(), start, seconds);
        crate::seqs::lemma_first_where_bounds(sorted, p);
        lemma_bucket_volume_insert(sorted, first_where(sorted, p), bars.last(), start, seconds);
    }
}

#[verifier::opaque]
spec fn summed(bars: Seq<Candle>, made: Candle, seconds: int) -> bool {
    sums_up(bars, made, seconds)
}

/// One more bar of another bucket changes nothing of what sums up a bucket.
proof fn lemma_sums_up_apart(init: Seq<Candle>, bar: Candle, made: Candle, seconds: int)
    requires
        summed(init, made, seconds),
        bucket_of(bar.time as int, seconds) != made.time,
    ensures
        summed(init.push(bar), made, seconds),
{
    reveal(summed);
    let w = init.push(bar);
    let start = made.time as int;
    lemma_push_contains(init, bar);
    assert(w.drop_last() =~= init);
    assert(forall|b: Candle|
        in_bucket(w, b, start, seconds) <==> #[trigger] in_bucket(init, b, start, seconds));
    let o = choose|b: Candle| #[trigger]
        opens_bucket(init, b, start, seconds) && b.open == made.open;
    let c = choose|b: Candle| #[trigger]
        closes_bucket(init, b, start, seconds) && b.close == made.close;
    let h = choose|b: Candle| #[trigger] in_bucket(init, b, start, seconds) && b.high == made.high;
    let l = choose|b: Candle| #[trigger] in_bucket(init, b, start, seconds) && b.low == made.low;
    assert forall|b: Candle| #[trigger] in_bucket(w, b, start, seconds) implies o.time <= b.time
        && b.time <= c.time && made.low <= b.low && b.high <= made.high by {
        assert(in_bucket(init, b, start, seconds));
    }
    assert(in_bucket(w, o, start, seconds));
    assert(in_bucket(w, c, start, seconds));
    assert(opens_bucket(w, o, start, seconds));
    assert(closes_bucket(w, c, start, seconds));
    assert(in_bucket(w, h, start, seconds));
    assert(in_bucket(w, l, start, seconds));
}

/// The latest bar goes on with the bucket that it is of.
proof fn lemma_sums_up_more(init: Seq<Candle>, bar: Candle, made: Candle, seconds: int)
    requires
        summed(init, made, seconds),
        bucket_of(bar.time as int, seconds) == made.time,
        forall|b: Candle| #[trigger] init.contains(b) ==> b.time <= bar.time,
    ensures
        summed(init.push(bar), continued(made, bar), seconds),
{
    reveal(summed);
    let w = init.push(bar);
    let start = made.time as int;
    let more = continued(made, bar);
    lemma_push_contains(init, bar);
    assert(w.drop_last() =~= init);
    let o = choose|b: Candle| #[trigger]
        opens_bucket(init, b, start, seconds) && b.open == made.open;
    let h = choose|b: Candle| #[trigger] in_bucket(init, b, start, seconds) && b.high == made.high;
    let l = choose|b: Candle| #[trigger] in_bucket(init, b, start, seconds) && b.low == made.low;
    assert(in_bucket(init, o, start, seconds));
    assert forall|b: Candle| #[trigger] in_bucket(w, b, start, seconds) implies o.time <= b.time
        && b.time <= bar.time && more.low <= b.low && b.high <= more.high by {
        if b != bar {
            assert(in_bucket(init, b, start, seconds));
        }
    }
    assert(in_bucket(w, o, start, seconds));
    assert(w.contains(bar));
    assert(in_bucket(w, bar, start, seconds));
    assert(opens_bucket(w, o, start, seconds));
    assert(closes_bucket(w, bar, start, seconds));
    let top = if bar.high > made.high {
        bar
    } else {
        h
    };
    let bottom = if bar.low < made.low {
        bar
    } else {
        l
    };
    assert(in_bucket(w, top, start, seconds) && top.high == more.high);
    assert(in_bucket(w, bottom, start, seconds) && bottom.low == more.low);
    lemma_bucket_volume_bound(init, start, seconds);
    assert(w.last() == bar);
    assert(bucket_volume(w, start, seconds) == bucket_volume(init, start, seconds) + bar.volume);
    assert(more.time == made.time && more.open == made.open && more.close == bar.close);
}

proof fn lemma_bucket_volume_bound(bars: Seq<Candle>, start: int, seconds: int)
    ensures
        0 <= bucket_volume(bars, start, seconds),
    decreases bars.len(),
{
    if bars.len() > 0 {
        lemma_bucket_volume_bound(bars.drop_last(), start, seconds);
    }
}

/// A bar begins the bucket that it is of.
proof fn lemma_sums_up_first(init: Seq<Candle>, bar: Candle, made: Candle, seconds: int)
    requires
        made == (Candle { time: made.time, ..bar }),
        bucket_of(bar.time as int, seconds) == made.time,
        forall|i: int|
            0 <= i < init.len() ==> bucket_of((#[trigger] init[i]).time as int, seconds)
                != made.time,
    ensures
        summed(init.push(bar), made, seconds),
{
    reveal(summed);
    let w = init.push(bar);
    let start = made.time as int;
    lemma_push_contains(init, bar);
    assert(w.drop_last() =~= init);
    lemma_bucket_volume_none(init, start, seconds);
    assert forall|b: Candle| #[trigger] in_bucket(w, b, start, seconds) implies b == bar by {
        if b != bar {
            let i = choose|i: int| 0 <= i < init.len() && init[i] == b;
            assert(bucket_of(init[i].time as int, seconds) != start);
        }
    }
    assert(w.contains(bar));
    assert(in_bucket(w, bar, start, seconds));
    assert(opens_bucket(w, bar, start, seconds));
    assert(closes_bucket(w, bar, start, seconds));
}

proof fn lemma_grouped_sums_up(bars: Seq<Candle>, seconds: int)
    requires
        ascending(bars),
        all_datable(bars, seconds),
        0 < seconds <= 0x40_0000_0000,
    ensures
        forall|i: int|
            0 <= i < grouped(bars, seconds).len() ==> summed(
                bars,
                #[trigger] grouped(bars, seconds)[i],
                seconds,
            ),
        forall|j: int|
            0 <= j < bars.len() ==> exists|i: int|
                0 <= i < grouped(bars, seconds).len() && (#[trigger] grouped(
                    bars,
                    seconds,
                )[i]).time == bucket_of((#[trigger] bars[j]).time as int, seconds),
    decreases bars.len(),
{
    if bars.len() > 0 {
        let init = bars.drop_last();
        let bar = bars.last();
        assert(bars =~= init.push(bar));
        assert(ascending(init)) by {
            assert forall|i: int, j: int| 0 <= i <= j < init.len() implies (#[trigger] init[i]).time
                <= (#[trigger] init[j]).time by {
                assert(bars[i].time <= bars[j].time);
            }
        }
        assert(all_datable(init, seconds)) by {
            assert forall|i: int| 0 <= i < init.len() implies datable(
                (#[trigger] init[i]).time as int,
                seconds,
            ) by {
                assert(datable(bars[i].time as int, seconds));
            }
        }
        lemma_grouped_sums_up(init, seconds);
        lemma_grouped_ordered(init, seconds);
        lemma_grouped_ordered(bars, seconds);
        let g = grouped(bars, seconds);
        let r = grouped(init, seconds);
        assert(datable(bars[bars.len() - 1].time as int, seconds));
        let start = bucket_of(bar.time as int, seconds);
        let goes_on = r.len() > 0 && r.last().time == start as i64;
        assert forall|b: Candle| #[trigger] init.contains(b) implies b.time <= bar.time by {
            let i = choose|i: int| 0 <= i < init.len() && init[i] == b;
            assert(bars[i].time <= bars[bars.len() - 1].time);
        }
        if !goes_on {
            assert forall|i: int| 0 <= i < init.len() implies bucket_of(
                (#[trigger] init[i]).time as int,
                seconds,
            ) != start by {
                assert(init[i].time <= init[init.len() - 1].time);
                lemma_bucket_order(init[i].time as int, init.last().time as int, seconds);
                assert(bars[init.len() - 1].time <= bars[bars.len() - 1].time);
                lemma_bucket_order(init.last().time as int, bar.time as int, seconds);
            }
        }
        assert forall|i: int| 0 <= i < g.len() implies summed(bars, #[trigger] g[i], seconds) by {
            if i < g.len() - 1 {
                assert(g[i] == r[i]);
                assert(g[i].time < g[g.len() - 1].time);
                lemma_sums_up_apart(init, bar, r[i], seconds);
            } else if goes_on {
                lemma_sums_up_more(init, bar, r[i], seconds);
            } else {
                lemma_sums_up_first(init, bar, g[i], seconds);
            }
        }
        assert forall|j: int| 0 <= j < bars.len() implies exists|i: int|
            0 <= i < g.len() && (#[trigger] g[i]).time == bucket_of(
                (#[trigger] bars[j]).time as int,
                seconds,
            ) by {
            if j < init.len() {
                assert(bars[j] == init[j]);
                let i = choose|i: int|
                    0 <= i < r.len() && (#[trigger] r[i]).time == bucket_of(
                        init[j].time as int,
                        seconds,
                    );
                assert(g[i].time == r[i].time);
            } else {
                assert(g[g.len() - 1].time == start);
            }
        }
    }
}

proof fn lemma_sums_up_in_any_order(bars: Seq<Candle>, made: Candle, seconds: int)
    requires
        summed(by_time(bars), made, seconds),
    ensures
        sums_up(bars, made, seconds),
{
    reveal(summed);
    let sorted = by_time(bars);
    let start = made.time as int;
    assert forall|b: Candle| #[trigger] in_bucket(bars, b, start, seconds) <==> in_bucket(
        sorted,
        b,
        start,
        seconds,
    ) by {
        lemma_by_time_contains(bars, b);
    }
    lemma_bucket_volume_by_time(bars, start, seconds);
    let o = choose|b: Candle| #[trigger]
        opens_bucket(sorted, b, start, seconds) && b.open == made.open;
    let c = choose|b: Candle| #[trigger]
        closes_bucket(sorted, b, start, seconds) && b.close == made.close;
    let h = choose|b: Candle| #[trigger]
        in_bucket(sorted, b, start, seconds) && b.high == made.high;
    let l = choose|b: Candle| #[trigger]
        in_bucket(sorted, b, start, seconds) && b.low == made.low;
    assert(in_bucket(bars, o, start, seconds));
    assert(in_bucket(bars, c, start, seconds));
    assert(opens_bucket(bars, o, start, seconds));
    assert(closes_bucket(bars, c, start, seconds));
    assert(in_bucket(bars, h, start, seconds));
    assert(in_bucket(bars, l, start, seconds));
}

proof fn lemma_bucket_is_there(bars: Seq<Candle>, seconds: int, j: int)
    requires
        0 <= j < bars.len(),
        all_datable(bars, seconds),
        0 < seconds <= 0x40_0000_0000,
    ensures
        exists|i: int|
            0 <= i < grouped(by_time(bars), seconds).len() && (#[trigger] grouped(
                by_time(bars),
                seconds,
            )[i]).time == bucket_of(bars[j].time as int, seconds),
{
    let sorted = by_time(bars);
    by_time_orders(bars);
    lemma_grouped_sums_up(sorted, seconds);
    assert(bars.contains(bars[j]));
    lemma_by_time_contains(bars, bars[j]);
    let k = choose|k: int| 0 <= k < sorted.len() && sorted[k] == bars[j];
    assert(sorted[k].time == bars[j].time);
}

/// Each bar of an interval sums up the bars of its bucket.
pub proof fn aggregation_sums_up_buckets(one_minute: Seq<Candle>, interval_minutes: u32)
    requires
        interval_minutes > 0,
        all_datable(one_minute, interval_minutes * 60),
    ensures
        forall|i: int|
            0 <= i < aggregated(one_minute, interval_minutes).len() ==> sums_up(
                one_minute,
                #[trigger] aggregated(one_minute, interval_minutes)[i],
                interval_minutes * 60,
            ),
{
    let g = aggregated(one_minute, interval_minutes);
    let seconds = interval_minutes * 60;
    by_time_orders(one_minute);
    assert forall|i: int| 0 <= i < g.len() implies sums_up(
        one_minute,
        #[trigger] g[i],
        seconds,
    ) by {
        lemma_grouped_sums_up(by_time(one_minute), seconds);
        lemma_sums_up_in_any_order(one_minute, g[i], seconds);
    }
}

/// Every bar is in the bucket of a bar of the interval.
pub proof fn aggregation_leaves_no_bar_out(one_minute: Seq<Candle>, interval_minutes: u32, j: int)
    requires
        interval_minutes > 0,
        all_datable(one_minute, interval_minutes * 60),
        0 <= j < one_minute.len(),
    ensures
        exists|i: int|
            0 <= i < aggregated(one_minute, interval_minutes).len() && (#[trigger] aggregated(
                one_minute,
                interval_minutes,
            )[i]).time == bucket_of(one_minute[j].time as int, interval_minutes * 60),
{
    let seconds = interval_minutes * 60;
    let g = grouped(by_time(one_minute), seconds);
    lemma_bucket_is_there(one_minute, seconds, j);
    let i = choose|i: int|
        0 <= i < g.len() && (#[trigger] g[i]).time == bucket_of(one_minute[j].time as int, seconds);
    assert(g == aggregated(one_minute, interval_minutes));
    assert(aggregated(one_minute, interval_minutes)[i] == g[i]);
}

/// What `f` takes from the bars from `from` up to `to` comes to in all.
pub open spec fn field_sum(bars: Seq<Candle>, f: spec_fn(Candle) -> u64, from: int, to: int) -> int
    decreases to - from,
{
    if to <= from {
        0
    } else {
        field_sum(bars, f, from, to - 1) + f(bars[to - 1])
    }
}

pub proof fn lemma_field_sum_bound(
    bars: Seq<Candle>,
    f: spec_fn(Candle) -> u64,
    from: int,
    to: int,
)
    requires
        0 <= from <= to,
    ensures
        0 <= field_sum(bars, f, from, to) <= (to - from) * u64::MAX,
    decreases to - from,
{
    if to > from {
        lemma_field_sum_bound(bars, f, from, to - 1);
        assert((to - from) * u64::MAX == (to - 1 - from) * u64::MAX + u64::MAX) by (nonlinear_arith);
    }
}

/// A window that moves on by one bar loses the bar it leaves and gains the one it reaches.
pub proof fn lemma_field_sum_slide(
    bars: Seq<Candle>,
    f: spec_fn(Candle) -> u64,
    from: int,
    to: int,
)
    requires
        0 <= from < to,
    ensures
        field_sum(bars, f, from, to) == f(bars[from]) + field_sum(bars, f, from + 1, to),
    decreases to - from,
{
    reveal_with_fuel(field_sum, 2);
    if to - 1 > from {
        lemma_field_sum_slide(bars, f, from, to - 1);
    }
}

/// The closes of bars.
pub open spec fn close_of() -> spec_fn(Candle) -> u64 {
    |bar: Candle| bar.close
}

/// The volumes of bars.
pub open spec fn volume_of() -> spec_fn(Candle) -> u64 {
    |bar: Candle| bar.volume
}

/// Average of what `f` takes from the last bars of a period, where there are so many.
pub open spec fn last_average(bars: Seq<Candle>, f: spec_fn(Candle) -> u64, period: int) -> Option<
    Ratio,
> {
    if period == 0 || bars.len() < period {
        None
    } else {
        Some(
            Ratio {
                numerator: field_sum(bars, f, bars.len() - period, bars.len() as int) as u128,
                denominator: period as u128,
            },
        )
    }
}

/// Average close of the last bars.
pub fn last_moving_average(bars: &[Candle], period: usize) -> (average: Option<Ratio>)
    ensures
        average == last_average(bars@, close_of(), period as int),
{
    if period == 0 || bars.len() < period {
        return None;
    }
    let n: usize = bars.len();
    let from: usize = n - period;
    let mut i: usize = from;
    let mut sum: u128 = 0;
    while i < n
        invariant
            n == bars@.len(),
            from <= i <= n,
            sum == field_sum(bars@, close_of(), from as int, i as int),
        decreases n - i,
    {
        proof {
            lemma_sum_fits(bars@, close_of(), from as int, i + 1);
        }
        sum = sum + bars[i].close as u128;
        i += 1;
    }
    Some(Ratio { numerator: sum, denominator: period as u128 })
}

/// Average volume of the last bars.
pub fn last_average_volume(bars: &[Candle], period: usize) -> (average: Option<Ratio>)
    ensures
        average == last_average(bars@, volume_of(), period as int),
{
    if period == 0 || bars.len() < period {
        return None;
    }
    let n: usize = bars.len();
    let from: usize = n - period;
    let mut i: usize = from;
    let mut sum: u128 = 0;
    while i < n
        invariant
            n == bars@.len(),
            from <= i <= n,
            sum == field_sum(bars@, volume_of(), from as int, i as int),
        decreases n - i,
    {
        proof {
            lemma_sum_fits(bars@, volume_of(), from as int, i + 1);
        }
        sum = sum + bars[i].volume as u128;
        i += 1;
    }
    Some(Ratio { numerator: sum, denominator: period as u128 })
}

/// A sum over no more bars than can be counted fits.
pub proof fn lemma_sum_fits(bars: Seq<Candle>, f: spec_fn(Candle) -> u64, from: int, to: int)
    requires
        0 <= from <= to <= usize::MAX,
    ensures
        0 <= field_sum(bars, f, from, to) <= u64::MAX * u64::MAX,
{
    lemma_field_sum_bound(bars, f, from, to);
    assert((to - from) * u64::MAX <= u64::MAX * u64::MAX) by (nonlinear_arith)
        requires
            0 <= to - from <= u64::MAX,
    ;
}

/// Bars of an interval at a moment: those that are complete, and the one that is forming.
#[derive(Debug)]
pub struct TimeframeSeries {
    pub interval_minutes: u32,
    pub completed: Vec<Candle>,
    pub forming: Option<Candle>,
    /// How much of the forming bar's time has passed, in percent.
    pub forming_progress_pct: Option<Ratio>,
}

/// The bars that have begun by a moment.
pub open spec fn begun(bars: Seq<Candle>, as_of: i64) -> Seq<Candle> {
    filter_mapped(
        bars,
        |bar: Candle|
            if bar.time <= as_of {
                Some(bar)
            } else {
                None
            },
    )
}

/// Where the bucket of the moment begins among the bars.
pub open spec fn split_index(bars: Seq<Candle>, bucket: int) -> int {
    first_where(bars, |bar: Candle| bar.time >= bucket)
}

/// The bars of an interval at a moment, the forming one among them.
pub open spec fn bars_at(one_minute: Seq<Candle>, minutes: u32, as_of: i64) -> Seq<Candle> {
    aggregated(begun(one_minute, as_of), minutes)
}

/// The bars that are complete at a moment.
pub open spec fn completed_at(one_minute: Seq<Candle>, minutes: u32, as_of: i64) -> Seq<Candle> {
    let all = bars_at(one_minute, minutes, as_of);
    all.take(split_index(all, bucket_of(as_of as int, minutes * 60)))
}

/// The bar that is forming at a moment.
pub open spec fn forming_at(one_minute: Seq<Candle>, minutes: u32, as_of: i64) -> Option<Candle> {
    let all = bars_at(one_minute, minutes, as_of);
    let bucket = bucket_of(as_of as int, minutes * 60);
    let split = split_index(all, bucket);
    if split < all.len() && all[split].time == bucket {
        Some(all[split])
    } else {
        None
    }
}

/// How much of the forming bar's time has passed, in percent.
pub open spec fn progress_at(one_minute: Seq<Candle>, minutes: u32, as_of: i64) -> Option<Ratio> {
    if forming_at(one_minute, minutes, as_of) is Some {
        Some(
            Ratio {
                numerator: ((as_of - bucket_of(as_of as int, minutes * 60)) * 100) as u128,
                denominator: (minutes * 60) as u128,
            },
        )
    } else {
        None
    }
}

/// The series is that of the bars at a moment.
pub open spec fn is_series(
    series: TimeframeSeries,
    one_minute: Seq<Candle>,
    minutes: u32,
    as_of: i64,
) -> bool {
    &&& series.interval_minutes == minutes
    &&& series.completed@ == completed_at(one_minute, minutes, as_of)
    &&& series.forming == forming_at(one_minute, minutes, as_of)
    &&& series.forming_progress_pct == progress_at(one_minute, minutes, as_of)
}

fn begun_by(one_minute: &[Candle], as_of: i64) -> (bars: Vec<Candle>)
    ensures
        bars@ == begun(one_minute@, as_of),
        forall|seconds: int|
            all_datable(one_minute@, seconds) ==> #[trigger] all_datable(bars@, seconds),
{
    let ghost f = |bar: Candle|
        if bar.time <= as_of {
            Some(bar)
        } else {
            None
        };
    let mut bars: Vec<Candle> = Vec::new();
    let mut i: usize = 0;
    while i < one_minute.len()
        invariant
            i <= one_minute@.len(),
            f == (|bar: Candle|
                if bar.time <= as_of {
                    Some(bar)
                } else {
                    None
                }),
            bars@ == filter_mapped(one_minute@.take(i as int), f),
            forall|seconds: int|
                all_datable(one_minute@, seconds) ==> #[trigger] all_datable(bars@, seconds),
        decreases one_minute@.len() - i,
    {
        proof {
            lemma_filter_mapped_step(one_minute@, f, i as int);
        }
        if one_minute[i].time <= as_of {
            let ghost before = bars@;
            bars.push(one_minute[i]);
            assert forall|seconds: int| all_datable(one_minute@, seconds) implies #[trigger] all_datable(
                bars@,
                seconds,
            ) by {
                assert(all_datable(before, seconds));
                assert(datable(one_minute@[i as int].time as int, seconds));
            }
        }
        i += 1;
    }
    assert(one_minute@.take(i as int) =~= one_minute@);
    bars
}

/// Splits the bars of an interval at a moment.
pub fn timeframe_series(one_minute: &[Candle], interval_minutes: u32, as_of_epoch: i64) -> (series:
    TimeframeSeries)
    requires
        interval_minutes > 0,
        all_datable(one_minute@, interval_minutes * 60),
        datable(as_of_epoch as int, interval_minutes * 60),
    ensures
        is_series(series, one_minute@, interval_minutes, as_of_epoch),
{
    let visible = begun_by(one_minute, as_of_epoch);
    let all = aggregate_candles(&visible, interval_minutes);
    let seconds: i64 = interval_minutes as i64 * 60;
    let bucket: i64 = bucket_start(as_of_epoch, seconds);
    let ghost p = |bar: Candle| bar.time >= bucket;
    let mut completed: Vec<Candle> = Vec::new();
    let mut split: usize = 0;
    while split < all.len() && all[split].time < bucket
        invariant
            split <= all@.len(),
            p == (|bar: Candle| bar.time >= bucket),
            forall|j: int| 0 <= j < split ==> !p(#[trigger] all@[j]),
            completed@ == all@.take(split as int),
        decreases all@.len() - split,
    {
        completed.push(all[split]);
        split += 1;
        assert(all@.take(split as int) =~= all@.take(split - 1).push(all@[split - 1]));
    }
    proof {
        lemma_first_where(all@, p, split as int);
    }
    let forming = if split < all.len() && all[split].time == bucket {
        Some(all[split])
    } else {
        None
    };
    let forming_progress_pct = match forming {
        Some(_) => Some(
            Ratio {
                numerator: (as_of_epoch - bucket) as u128 * 100,
                denominator: seconds as u128,
            },
        ),
        None => None,
    };
    TimeframeSeries { interval_minutes, completed, forming, forming_progress_pct }
}

#[derive(Debug, Clone, Copy, PartialEq, Eq, Structural)]
pub struct MovingAveragePayload {
    pub ma5: Option<Ratio>,
    pub ma20: Option<Ratio>,
    pub ma60: Option<Ratio>,
    pub ma120: Option<Ratio>,
}

#[derive(Debug, Clone, Copy, PartialEq, Eq, Structural)]
pub struct AverageVolumePayload {
    pub volume5: Option<Ratio>,
    pub volume20: Option<Ratio>,
}

/// What is told of one interval.
#[derive(Debug)]
pub struct TimeframeIndicatorPayload {
    pub interval_minutes: u32,
    pub completed_candles: Vec<Candle>,
    pub forming_candle: Option<Candle>,
    pub forming_progress_pct: Option<Ratio>,
    pub moving_averages: MovingAveragePayload,
    pub average_volumes: AverageVolumePayload,
}

/// The last bars, thirty at most.
pub open spec fn payload_bars(completed: Seq<Candle>) -> Seq<Candle> {
    if completed.len() <= PAYLOAD_BARS {
        completed
    } else {
        completed.skip(completed.len() - PAYLOAD_BARS)
    }
}

/// The payload tells a series: its last bars, and averages over all its completed bars.
pub open spec fn is_payload(payload: TimeframeIndicatorPayload, series: TimeframeSeries) -> bool {
    let completed = series.completed@;
    &&& payload.interval_minutes == series.interval_minutes
    &&& payload.completed_candles@ == payload_bars(completed)
    &&& payload.forming_candle == series.forming
    &&& payload.forming_progress_pct == series.forming_progress_pct
    &&& payload.moving_averages == (MovingAveragePayload {
        ma5: last_average(completed, close_of(), 5),
        ma20: last_average(completed, close_of(), 20),
        ma60: last_average(completed, close_of(), 60),
        ma120: last_average(completed, close_of(), 120),
    })
    &&& payload.average_volumes == (AverageVolumePayload {
        volume5: last_average(completed, volume_of(), 5),
        volume20: last_average(completed, volume_of(), 20),
    })
}

/// What is told of a series.
pub fn timeframe_payload(series: &TimeframeSeries) -> (payload: TimeframeIndicatorPayload)
    ensures
        is_payload(payload, *series),
{
    let n: usize = series.completed.len();
    let start: usize = if n <= PAYLOAD_BARS {
        0
    } else {
        n - PAYLOAD_BARS
    };
    let mut completed_candles: Vec<Candle> = Vec::new();
    let mut i: usize = start;
    while i < n
        invariant
            n == series.completed@.len(),
            start <= i <= n,
            completed_candles@ == series.completed@.subrange(start as int, i as int),
        decreases n - i,
    {
        completed_candles.push(series.completed[i]);
        i += 1;
        assert(series.completed@.subrange(start as int, i as int) =~= series.completed@.subrange(
            start as int,
            i - 1,
        ).push(series.completed@[i - 1]));
    }
    assert(completed_candles@ =~= payload_bars(series.completed@));
    TimeframeIndicatorPayload {
        interval_minutes: series.interval_minutes,
        completed_candles,
        forming_candle: series.forming,
        forming_progress_pct: series.forming_progress_pct,
        moving_averages: MovingAveragePayload {
            ma5: last_moving_average(&series.completed, 5),
            ma20: last_moving_average(&series.completed, 20),
            ma60: last_moving_average(&series.completed, 60),
            ma120: last_moving_average(&series.completed, 120),
        },
        average_volumes: AverageVolumePayload {
            volume5: last_average_volume(&series.completed, 5),
            volume20: last_average_volume(&series.completed, 20),
        },
    }
}

/// What is told of the day.
#[derive(Debug, Clone, Copy, PartialEq, Eq, Structural)]
pub struct DayIndicatorPayload {
    pub open: Option<u64>,
    pub high: Option<u64>,
    pub low: Option<u64>,
    /// Average of (high + low + close) / 3, weighted by volume. None without volume, or where the
    /// sums do not fit.
    pub hlc3_volume_weighted_average: Option<Ratio>,
}

/// The bars of the day of a moment that have begun by it.
pub open spec fn of_day(bars: Seq<Candle>, as_of: i64) -> Seq<Candle> {
    filter_mapped(
        bars,
        |bar: Candle|
            if bar.time <= as_of && bucket_of(bar.time as int, 86_400) == bucket_of(
                as_of as int,
                86_400,
            ) {
                Some(bar)
            } else {
                None
            },
    )
}

pub open spec fn highest(bars: Seq<Candle>) -> u64
    decreases bars.len(),
{
    if bars.len() == 0 {
        0
    } else {
        let rest = highest(bars.drop_last());
        if bars.last().high > rest {
            bars.last().high
        } else {
            rest
        }
    }
}

pub open spec fn lowest(bars: Seq<Candle>) -> u64
    decreases bars.len(),
{
    if bars.len() == 0 {
        u64::MAX
    } else {
        let rest = lowest(bars.drop_last());
        if bars.last().low < rest {
            bars.last().low
        } else {
            rest
        }
    }
}

/// The sum of (high + low + close) times volume.
pub open spec fn weighted(bars: Seq<Candle>) -> int
    decreases bars.len(),
{
    if bars.len() == 0 {
        0
    } else {
        let bar = bars.last();
        weighted(bars.drop_last()) + (bar.high + bar.low + bar.close) * bar.volume
    }
}

pub open spec fn total_volume(bars: Seq<Candle>) -> int
    decreases bars.len(),
{
    if bars.len() == 0 {
        0
    } else {
        total_volume(bars.drop_last()) + bars.last().volume
    }
}

/// What is told of the day of a moment.
pub open spec fn day_of(one_minute: Seq<Candle>, as_of: i64) -> DayIndicatorPayload {
    let bars = by_time(of_day(one_minute, as_of));
    if bars.len() == 0 {
        DayIndicatorPayload {
            open: None,
            high: None,
            low: None,
            hlc3_volume_weighted_average: None,
        }
    } else {
        DayIndicatorPayload {
            open: Some(bars[0].open),
            high: Some(highest(bars)),
            low: Some(lowest(bars)),
            hlc3_volume_weighted_average: if total_volume(bars) == 0 || weighted(bars) > u128::MAX
                || 3 * total_volume(bars) > u128::MAX {
                None
            } else {
                Some(
                    Ratio {
                        numerator: weighted(bars) as u128,
                        denominator: (3 * total_volume(bars)) as u128,
                    },
                )
            },
        }
    }
}

proof fn lemma_weighted_grows(bars: Seq<Candle>, i: int)
    requires
        0 <= i <= bars.len(),
    ensures
        0 <= weighted(bars.take(i)) <= weighted(bars),
        0 <= total_volume(bars.take(i)) <= total_volume(bars),
    decreases bars.len() - i,
{
    lemma_weighted_nonnegative(bars.take(i));
    if i < bars.len() {
        lemma_weighted_grows(bars, i + 1);
        assert(bars.take(i + 1).drop_last() =~= bars.take(i));
        let bar = bars[i];
        assert((bar.high + bar.low + bar.close) * bar.volume >= 0) by (nonlinear_arith);
    } else {
        assert(bars.take(i) =~= bars);
    }
}

proof fn lemma_weighted_nonnegative(bars: Seq<Candle>)
    ensures
        weighted(bars) >= 0,
        total_volume(bars) >= 0,
    decreases bars.len(),
{
    if bars.len() > 0 {
        lemma_weighted_nonnegative(bars.drop_last());
        let bar = bars.last();
        assert((bar.high + bar.low + bar.close) * bar.volume >= 0) by (nonlinear_arith);
    }
}

/// A time is in the day of a later one where the day had begun by it.
proof fn lemma_same_day(time: int, as_of: int)
    requires
        time <= as_of,
    ensures
        bucket_of(time, 86_400) == bucket_of(as_of, 86_400) <==> as_of - time <= as_of % 86_400,
{
}

fn bars_of_day(one_minute: &[Candle], as_of: i64) -> (bars: Vec<Candle>)
    ensures
        bars@ == of_day(one_minute@, as_of),
{
    let ghost f = |bar: Candle|
        if bar.time <= as_of && bucket_of(bar.time as int, 86_400) == bucket_of(
            as_of as int,
            86_400,
        ) {
            Some(bar)
        } else {
            None
        };
    let into: i64 = match as_of.checked_rem_euclid(86_400) {
        Some(into) => into,
        None => 0,
    };
    let mut bars: Vec<Candle> = Vec::new();
    let mut i: usize = 0;
    while i < one_minute.len()
        invariant
            i <= one_minute@.len(),
            into == as_of as int % 86_400,
            f == (|bar: Candle|
                if bar.time <= as_of && bucket_of(bar.time as int, 86_400) == bucket_of(
                    as_of as int,
                    86_400,
                ) {
                    Some(bar)
                } else {
                    None
                }),
            bars@ == filter_mapped(one_minute@.take(i as int), f),
        decreases one_minute@.len() - i,
    {
        proof {
            lemma_filter_mapped_step(one_minute@, f, i as int);
            if one_minute@[i as int].time <= as_of {
                lemma_same_day(one_minute@[i as int].time as int, as_of as int);
            }
        }
        if one_minute[i].time <= as_of && as_of as i128 - one_minute[i].time as i128 <= into as i128 {
            bars.push(one_minute[i]);
        }
        i += 1;
    }
    assert(one_minute@.take(i as int) =~= one_minute@);
    bars
}

fn weighted_average(bars: &Vec<Candle>) -> (average: Option<Ratio>)
    ensures
        average == (if total_volume(bars@) == 0 || weighted(bars@) > u128::MAX || 3 * total_volume(
            bars@,
        ) > u128::MAX {
            None
        } else {
            Some(
                Ratio {
                    numerator: weighted(bars@) as u128,
                    denominator: (3 * total_volume(bars@)) as u128,
                },
            )
        }),
{
    let mut value: u128 = 0;
    let mut volume: u128 = 0;
    let mut i: usize = 0;
    assert(bars@.take(0) =~= Seq::empty());
    while i < bars.len()
        invariant
            i <= bars@.len(),
            value == weighted(bars@.take(i as int)),
            volume == total_volume(bars@.take(i as int)),
        decreases bars@.len() - i,
    {
        let bar = bars[i];
        proof {
            assert(bars@.take(i + 1).drop_last() =~= bars@.take(i as int));
            lemma_weighted_grows(bars@, i + 1);
            assert((bar.high + bar.low + bar.close) * bar.volume >= 0) by (nonlinear_arith);
        }
        let price: u128 = bar.high as u128 + bar.low as u128 + bar.close as u128;
        let part: u128 = match price.checked_mul(bar.volume as u128) {
            Some(part) => part,
            None => return None,
        };
        value = match value.checked_add(part) {
            Some(value) => value,
            None => return None,
        };
        volume = match volume.checked_add(bar.volume as u128) {
            Some(volume) => volume,
            None => return None,
        };
        i += 1;
    }
    assert(bars@.take(i as int) =~= bars@);
    if volume == 0 {
        return None;
    }
    match volume.checked_mul(3) {
        Some(denominator) => Some(Ratio { numerator: value, denominator }),
        None => None,
    }
}

/// What is told of the day of a moment.
pub fn day_payload(one_minute: &[Candle], as_of_epoch: i64) -> (day: DayIndicatorPayload)
    ensures
        day == day_of(one_minute@, as_of_epoch),
{
    let unsorted = bars_of_day(one_minute, as_of_epoch);
    let bars = sort_by_time(&unsorted);
    if bars.len() == 0 {
        return DayIndicatorPayload {
            open: None,
            high: None,
            low: None,
            hlc3_volume_weighted_average: None,
        };
    }
    let mut high: u64 = 0;
    let mut low: u64 = u64::MAX;
    let mut i: usize = 0;
    assert(bars@.take(0) =~= Seq::empty());
    while i < bars.len()
        invariant
            i <= bars@.len(),
            high == highest(bars@.take(i as int)),
            low == lowest(bars@.take(i as int)),
        decreases bars@.len() - i,
    {
        assert(bars@.take(i + 1).drop_last() =~= bars@.take(i as int));
        if bars[i].high > high {
            high = bars[i].high;
        }
        if bars[i].low < low {
            low = bars[i].low;
        }
        i += 1;
    }
    assert(bars@.take(i as int) =~= bars@);
    DayIndicatorPayload {
        open: Some(bars[0].open),
        high: Some(high),
        low: Some(low),
        hlc3_volume_weighted_average: weighted_average(&bars),
    }
}

/// All that is told of the chart.
#[derive(Debug)]
pub struct IndicatorPayload {
    pub as_of_epoch: i64,
    pub day: DayIndicatorPayload,
    pub one_minute: TimeframeIndicatorPayload,
    pub three_minute: TimeframeIndicatorPayload,
    pub five_minute: TimeframeIndicatorPayload,
    pub fifteen_minute: TimeframeIndicatorPayload,
}

/// The payload tells the bars of an interval at a moment.
pub open spec fn tells_interval(
    payload: TimeframeIndicatorPayload,
    one_minute: Seq<Candle>,
    minutes: u32,
    as_of: i64,
) -> bool {
    exists|series: TimeframeSeries|
        is_series(series, one_minute, minutes, as_of) && #[trigger] is_payload(payload, series)
}

/// Where the bucket of fifteen minutes can be counted, so can those of one, three and five.
pub proof fn lemma_shorter_buckets(bars: Seq<Candle>, as_of: int)
    ensures
        all_datable(bars, 900) ==> all_datable(bars, 60) && all_datable(bars, 180) && all_datable(
            bars,
            300,
        ),
        datable(as_of, 900) ==> datable(as_of, 60) && datable(as_of, 180) && datable(as_of, 300),
{
    if all_datable(bars, 900) {
        assert forall|i: int| 0 <= i < bars.len() implies datable(
            (#[trigger] bars[i]).time as int,
            60,
        ) && datable(bars[i].time as int, 180) && datable(bars[i].time as int, 300) by {
            assert(datable(bars[i].time as int, 900));
        }
    }
}

/// Splits the bars of one, three, five and fifteen minutes at a moment.
pub fn indicator_payload(one_minute: &[Candle], as_of_epoch: i64) -> (payload: IndicatorPayload)
    requires
        all_datable(one_minute@, 900),
        datable(as_of_epoch as int, 900),
    ensures
        payload.as_of_epoch == as_of_epoch,
        payload.day == day_of(one_minute@, as_of_epoch),
        tells_interval(payload.one_minute, one_minute@, 1, as_of_epoch),
        tells_interval(payload.three_minute, one_minute@, 3, as_of_epoch),
        tells_interval(payload.five_minute, one_minute@, 5, as_of_epoch),
        tells_interval(payload.fifteen_minute, one_minute@, 15, as_of_epoch),
{
    proof {
        lemma_shorter_buckets(one_minute@, as_of_epoch as int);
    }
    let one = timeframe_series(one_minute, 1, as_of_epoch);
    let three = timeframe_series(one_minute, 3, as_of_epoch);
    let five = timeframe_series(one_minute, 5, as_of_epoch);
    let fifteen = timeframe_series(one_minute, 15, as_of_epoch);
    IndicatorPayload {
        as_of_epoch,
        day: day_payload(one_minute, as_of_epoch),
        one_minute: timeframe_payload(&one),
        three_minute: timeframe_payload(&three),
        five_minute: timeframe_payload(&five),
        fifteen_minute: timeframe_payload(&fifteen),
    }
}

proof fn lemma_begun(one_minute: Seq<Candle>, as_of: i64)
    ensures
        forall|i: int|
            0 <= i < begun(one_minute, as_of).len() ==> (#[trigger] begun(one_minute, as_of)[i]).time
                <= as_of && one_minute.contains(begun(one_minute, as_of)[i]),
        forall|j: int|
            0 <= j < one_minute.len() && (#[trigger] one_minute[j]).time <= as_of ==> begun(
                one_minute,
                as_of,
            ).contains(one_minute[j]),
        forall|seconds: int|
            all_datable(one_minute, seconds) ==> #[trigger] all_datable(
                begun(one_minute, as_of),
                seconds,
            ),
    decreases one_minute.len(),
{
    let all = begun(one_minute, as_of);
    if one_minute.len() > 0 {
        let front = one_minute.drop_last();
        let bar = one_minute.last();
        lemma_begun(front, as_of);
        let rest = begun(front, as_of);
        assert(all =~= if bar.time <= as_of {
            rest.push(bar)
        } else {
            rest
        });
        assert forall|i: int| 0 <= i < all.len() implies (#[trigger] all[i]).time <= as_of
            && one_minute.contains(all[i]) by {
            if i < rest.len() {
                assert(all[i] == rest[i]);
                let j = choose|j: int| 0 <= j < front.len() && front[j] == rest[i];
                assert(one_minute[j] == all[i]);
            } else {
                assert(one_minute[one_minute.len() - 1] == all[i]);
            }
        }
        assert forall|j: int|
            0 <= j < one_minute.len() && (#[trigger] one_minute[j]).time <= as_of implies all.contains(
            one_minute[j],
        ) by {
            if j < front.len() {
                assert(front[j] == one_minute[j]);
                let i = choose|i: int| 0 <= i < rest.len() && rest[i] == front[j];
                assert(all[i] == one_minute[j]);
            } else {
                assert(all[rest.len() as int] == one_minute[j]);
            }
        }
    }
    assert forall|seconds: int| all_datable(one_minute, seconds) implies #[trigger] all_datable(
        all,
        seconds,
    ) by {
        assert forall|i: int| 0 <= i < all.len() implies datable(
            (#[trigger] all[i]).time as int,
            seconds,
        ) by {
            let j = choose|j: int| 0 <= j < one_minute.len() && one_minute[j] == all[i];
            assert(datable(one_minute[j].time as int, seconds));
        }
    }
}

/// Whether a bar of so many seconds is over at a moment.
pub open spec fn is_over(bar: Candle, seconds: int, at: i64) -> bool {
    bar.time + seconds <= at
}

/// Whether a moment lies within a bar of so many seconds.
pub open spec fn within(at: i64, bar: Candle, seconds: int) -> bool {
    bar.time <= at < bar.time + seconds
}

/// At a moment the completed bars are those that are over, and the forming one is that within which
/// the moment lies; each sums up the minutes of its time that have begun by then, and no such minute
/// is left out.
pub proof fn completed_bars_are_over(one_minute: Seq<Candle>, minutes: u32, as_of: i64)
    requires
        minutes > 0,
        all_datable(one_minute, minutes * 60),
        datable(as_of as int, minutes * 60),
    ensures
        ({
            let seconds = minutes * 60;
            let completed = completed_at(one_minute, minutes, as_of);
            let forming = forming_at(one_minute, minutes, as_of);
            &&& forall|i: int|
                0 <= i < completed.len() ==> is_over(#[trigger] completed[i], seconds, as_of)
                    && sums_up(begun(one_minute, as_of), completed[i], seconds)
            &&& forall|i: int, j: int|
                #![trigger completed[i], completed[j]]
                0 <= i < j < completed.len() ==> completed[i].time < completed[j].time
            &&& forming matches Some(bar) ==> within(as_of, bar, seconds) && sums_up(
                begun(one_minute, as_of),
                bar,
                seconds,
            )
            &&& forall|j: int|
                0 <= j < one_minute.len() && (#[trigger] one_minute[j]).time <= as_of ==> {
                    ||| forming is Some && within(one_minute[j].time, forming->0, seconds)
                    ||| exists|i: int|
                        0 <= i < completed.len() && within(
                            one_minute[j].time,
                            #[trigger] completed[i],
                            seconds,
                        )
                }
        }),
{
    let seconds = minutes * 60;
    let seen = begun(one_minute, as_of);
    let all = bars_at(one_minute, minutes, as_of);
    let bucket = bucket_of(as_of as int, seconds);
    let completed = completed_at(one_minute, minutes, as_of);
    let forming = forming_at(one_minute, minutes, as_of);
    let p = |bar: Candle| bar.time >= bucket;
    let split = split_index(all, bucket);
    lemma_begun(one_minute, as_of);
    assert(all_datable(seen, seconds));
    crate::seqs::lemma_first_where_bounds(all, p);
    aggregation_is_ordered(seen, minutes);
    aggregation_sums_up_buckets(seen, minutes);
    assert forall|i: int| 0 <= i < all.len() implies (#[trigger] all[i]).time <= bucket by {
        assert(sums_up(seen, all[i], seconds));
        let b = choose|b: Candle| #[trigger]
            opens_bucket(seen, b, all[i].time as int, seconds) && b.open == all[i].open;
        assert(in_bucket(seen, b, all[i].time as int, seconds));
        let k = choose|k: int| 0 <= k < seen.len() && seen[k] == b;
        assert(seen[k].time <= as_of);
        lemma_bucket_order(b.time as int, as_of as int, seconds);
    }
    assert forall|i: int| 0 <= i < completed.len() implies is_over(
        #[trigger] completed[i],
        seconds,
        as_of,
    ) && sums_up(seen, completed[i], seconds) by {
        assert(completed[i] == all[i]);
        assert(!p(all[i]));
        assert(all[i].time % (minutes * 60) as i64 == 0);
        lemma_next_bucket(all[i].time as int, as_of as int, seconds);
    }
    assert forall|i: int, j: int|
        #![trigger completed[i], completed[j]]
        0 <= i < j < completed.len() implies completed[i].time < completed[j].time by {
        assert(all[i].time < all[j].time);
    }
    vstd::arithmetic::div_mod::lemma_mod_bound(as_of as int, seconds);
    assert forall|j: int| 0 <= j < one_minute.len() && (#[trigger] one_minute[j]).time <= as_of implies {
        ||| forming is Some && within(one_minute[j].time, forming->0, seconds)
        ||| exists|i: int|
            0 <= i < completed.len() && within(one_minute[j].time, #[trigger] completed[i], seconds)
    } by {
        let k = choose|k: int| 0 <= k < seen.len() && seen[k] == one_minute[j];
        aggregation_leaves_no_bar_out(seen, minutes, k);
        let i = choose|i: int|
            0 <= i < all.len() && (#[trigger] all[i]).time == bucket_of(
                seen[k].time as int,
                seconds,
            );
        vstd::arithmetic::div_mod::lemma_mod_bound(one_minute[j].time as int, seconds);
        assert(within(one_minute[j].time, all[i], seconds));
        if i < split {
            assert(completed[i] == all[i]);
        } else {
            assert(p(all[split]));
            assert(all[i].time <= bucket);
            if split < i {
                assert(all[split].time < all[i].time);
            }
            assert(forming == Some(all[i]));
        }
    }
}

proof fn lemma_next_bucket(start: int, at: int, seconds: int)
    requires
        seconds > 0,
        start % seconds == 0,
        start < bucket_of(at, seconds),
    ensures
        start + seconds <= at,
{
    vstd::arithmetic::div_mod::lemma_fundamental_div_mod(start, seconds);
    vstd::arithmetic::div_mod::lemma_fundamental_div_mod(at, seconds);
    vstd::arithmetic::div_mod::lemma_mod_bound(at, seconds);
    let m = start / seconds;
    let n = at / seconds;
    assert(m < n) by (nonlinear_arith)
        requires
            seconds * m < seconds * n,
            seconds > 0,
    ;
    assert(seconds * m + seconds <= seconds * n) by (nonlinear_arith)
        requires
            m < n,
            seconds > 0,
    ;
}

/// The progress of the forming bar is the part of its time that has passed, in percent: none at its
/// beginning, and less than a hundred.
pub proof fn progress_is_of_the_forming_bar(one_minute: Seq<Candle>, minutes: u32, as_of: i64)
    requires
        minutes > 0,
        datable(as_of as int, minutes * 60),
    ensures
        ({
            let forming = forming_at(one_minute, minutes, as_of);
            let progress = progress_at(one_minute, minutes, as_of);
            &&& forming is Some <==> progress is Some
            &&& forming matches Some(bar) ==> {
                &&& progress->0.denominator == minutes * 60
                &&& progress->0.numerator == (as_of - bar.time) * 100
                &&& progress->0.numerator < 100 * progress->0.denominator
            }
        }),
{
    vstd::arithmetic::div_mod::lemma_mod_bound(as_of as int, minutes * 60);
}

/// The averages of closes and of volumes are over the last bars: that of one bar is its own value, a
/// longer period adds the bar before, and there is none where there are too few bars.
pub proof fn averages_are_of_the_last_bars(bars: Seq<Candle>, period: int)
    requires
        0 < period <= 1_000,
        bars.len() <= usize::MAX,
    ensures
        bars.len() < period ==> last_average(bars, close_of(), period) is None && last_average(
            bars,
            volume_of(),
            period,
        ) is None,
        bars.len() >= period ==> {
            let closes = last_average(bars, close_of(), period)->0;
            let volumes = last_average(bars, volume_of(), period)->0;
            let first = bars[bars.len() - period];
            &&& last_average(bars, close_of(), period) is Some
            &&& last_average(bars, volume_of(), period) is Some
            &&& closes.denominator == period
            &&& volumes.denominator == period
            &&& period == 1 ==> closes.numerator == bars.last().close && volumes.numerator
                == bars.last().volume
            &&& period > 1 ==> closes.numerator == last_average(
                bars,
                close_of(),
                period - 1,
            )->0.numerator + first.close
            &&& period > 1 ==> volumes.numerator == last_average(
                bars,
                volume_of(),
                period - 1,
            )->0.numerator + first.volume
        },
{
    if bars.len() >= period {
        let n = bars.len() as int;
        lemma_sum_fits(bars, close_of(), n - period, n);
        lemma_sum_fits(bars, volume_of(), n - period, n);
        lemma_sum_fits(bars, close_of(), n - period + 1, n);
        lemma_sum_fits(bars, volume_of(), n - period + 1, n);
        lemma_sum_from_front(bars, close_of(), n - period, n);
        lemma_sum_from_front(bars, volume_of(), n - period, n);
    }
}

proof fn lemma_sum_from_front(bars: Seq<Candle>, f: spec_fn(Candle) -> u64, from: int, to: int)
    requires
        from < to,
    ensures
        field_sum(bars, f, from, to) == f(bars[from]) + field_sum(bars, f, from + 1, to),
    decreases to - from,
{
    if to > from + 1 {
        lemma_sum_from_front(bars, f, from, to - 1);
    } else {
        assert(field_sum(bars, f, from, from) == 0);
    }
}

/// The bars of a payload are the last completed ones in their order, thirty at most.
pub proof fn payload_has_the_last_bars(completed: Seq<Candle>)
    ensures
        ({
            let told = payload_bars(completed);
            &&& completed.len() <= 30 ==> told == completed
            &&& completed.len() > 30 ==> told.len() == 30
            &&& forall|i: int|
                0 <= i < told.len() ==> #[trigger] told[told.len() - 1 - i] == completed[completed.len()
                    - 1 - i]
        }),
{
}

proof fn lemma_inserted(bars: Seq<Candle>, k: int, bar: Candle)
    requires
        0 <= k <= bars.len(),
    ensures
        weighted(bars.insert(k, bar)) == weighted(bars) + (bar.high + bar.low + bar.close) * bar.volume,
        highest(bars.insert(k, bar)) == (if bar.high > highest(bars) {
            bar.high
        } else {
            highest(bars)
        }),
        lowest(bars.insert(k, bar)) == (if bar.low < lowest(bars) {
            bar.low
        } else {
            lowest(bars)
        }),
    decreases bars.len(),
{
    let w = bars.insert(k, bar);
    if k == bars.len() {
        assert(w.drop_last() =~= bars);
    } else {
        assert(w.drop_last() =~= bars.drop_last().insert(k, bar));
        lemma_inserted(bars.drop_last(), k, bar);
    }
}

proof fn lemma_no_volume(bars: Seq<Candle>)
    ensures
        total_volume(bars) == 0 ==> weighted(bars) == 0,
    decreases bars.len(),
{
    if bars.len() > 0 && total_volume(bars) == 0 {
        lemma_weighted_nonnegative(bars.drop_last());
        lemma_no_volume(bars.drop_last());
        let bar = bars.last();
        assert((bar.high + bar.low + bar.close) * bar.volume == 0) by (nonlinear_arith)
            requires
                bar.volume == 0,
        ;
    }
}

/// A bar of the same day, not later than the moment, is in what is told of the day: the high and the
/// low reach it, and the average counts a third of its high, low and close for each of its shares. A
/// bar of another day, or a later one, is not.
pub proof fn day_counts_its_bars(one_minute: Seq<Candle>, bar: Candle, as_of: i64)
    ensures
        ({
            let before = day_of(one_minute, as_of);
            let after = day_of(one_minute.push(bar), as_of);
            let start = as_of - as_of as int % 86_400;
            let value = (bar.high + bar.low + bar.close) * bar.volume;
            &&& bar.time > as_of || bar.time < start ==> after == before
            &&& start <= bar.time <= as_of ==> {
                &&& after.open is Some && after.high is Some && after.low is Some
                &&& before.high is None ==> after.open == Some(bar.open) && after.high == Some(
                    bar.high,
                ) && after.low == Some(bar.low)
                &&& before.high matches Some(high) ==> after.high == Some(
                    if bar.high > high {
                        bar.high
                    } else {
                        high
                    },
                )
                &&& before.low matches Some(low) ==> after.low == Some(
                    if bar.low < low {
                        bar.low
                    } else {
                        low
                    },
                )
                &&& after.hlc3_volume_weighted_average matches Some(average) ==> match before.hlc3_volume_weighted_average {
                    Some(earlier) => average.numerator == earlier.numerator + value
                        && average.denominator == earlier.denominator + 3 * bar.volume,
                    None => average.numerator == value && average.denominator == 3 * bar.volume,
                }
                &&& before.hlc3_volume_weighted_average matches Some(earlier) ==> (
                earlier.numerator + value <= u128::MAX && earlier.denominator + 3 * bar.volume
                    <= u128::MAX ==> after.hlc3_volume_weighted_average is Some)
                &&& before.high is None && bar.volume > 0 && value <= u128::MAX
                    ==> after.hlc3_volume_weighted_average is Some
            }
        }),
{
    let all = one_minute.push(bar);
    assert(all.drop_last() =~= one_minute);
    let day = of_day(one_minute, as_of);
    let start = as_of - as_of as int % 86_400;
    if bar.time <= as_of {
        lemma_same_day(bar.time as int, as_of as int);
    }
    if start <= bar.time <= as_of {
        let sorted = by_time(day);
        let p = |b: Candle| b.time > bar.time;
        assert(of_day(all, as_of) =~= day.push(bar));
        assert(day.push(bar).drop_last() =~= day);
        crate::seqs::lemma_first_where_bounds(sorted, p);
        lemma_inserted(sorted, first_where(sorted, p), bar);
        lemma_total_insert(sorted, first_where(sorted, p), bar);
        lemma_no_volume(sorted);
        lemma_weighted_nonnegative(sorted);
        by_time_orders(day);
        assert((bar.high + bar.low + bar.close) * bar.volume >= 0) by (nonlinear_arith);
        if sorted.len() == 0 {
            assert(bar.high >= 0 && bar.low <= u64::MAX);
        }
    } else {
        assert(of_day(all, as_of) == day);
    }
}

/// The day opens with an earliest of its bars.
pub proof fn day_opens_with_its_first_bar(one_minute: Seq<Candle>, as_of: i64, j: int)
    requires
        0 <= j < one_minute.len(),
        as_of - as_of as int % 86_400 <= one_minute[j].time <= as_of,
        forall|k: int|
            0 <= k < one_minute.len() && k != j && as_of - as_of as int % 86_400 <= (
            #[trigger] one_minute[k]).time ==> one_minute[j].time < one_minute[k].time,
    ensures
        day_of(one_minute, as_of).open == Some(one_minute[j].open),
{
    let day = of_day(one_minute, as_of);
    lemma_of_day(one_minute, as_of);
    by_time_orders(day);
    let sorted = by_time(day);
    let i = choose|i: int| 0 <= i < day.len() && day[i] == one_minute[j];
    assert(day.contains(one_minute[j]));
    lemma_by_time_contains(day, one_minute[j]);
    let m = choose|m: int| 0 <= m < sorted.len() && sorted[m] == one_minute[j];
    assert(sorted[0].time <= sorted[m].time);
    assert(sorted.contains(sorted[0]));
    lemma_by_time_contains(day, sorted[0]);
    let n = choose|n: int| 0 <= n < day.len() && day[n] == sorted[0];
    assert(one_minute.contains(day[n]));
    let k = choose|k: int| 0 <= k < one_minute.len() && one_minute[k] == day[n];
    lemma_same_day(one_minute[k].time as int, as_of as int);
}

proof fn lemma_of_day(one_minute: Seq<Candle>, as_of: i64)
    ensures
        forall|i: int|
            0 <= i < of_day(one_minute, as_of).len() ==> one_minute.contains(
                #[trigger] of_day(one_minute, as_of)[i],
            ) && of_day(one_minute, as_of)[i].time <= as_of && as_of - as_of as int % 86_400
                <= of_day(one_minute, as_of)[i].time,
        forall|j: int|
            0 <= j < one_minute.len() && as_of - as_of as int % 86_400 <= (
            #[trigger] one_minute[j]).time <= as_of ==> of_day(one_minute, as_of).contains(
                one_minute[j],
            ),
    decreases one_minute.len(),
{
    let all = of_day(one_minute, as_of);
    if one_minute.len() > 0 {
        let front = one_minute.drop_last();
        let bar = one_minute.last();
        lemma_of_day(front, as_of);
        let rest = of_day(front, as_of);
        if bar.time <= as_of {
            lemma_same_day(bar.time as int, as_of as int);
        }
        let counts = as_of - as_of as int % 86_400 <= bar.time <= as_of;
        assert(all =~= if counts {
            rest.push(bar)
        } else {
            rest
        });
        assert forall|i: int| 0 <= i < all.len() implies one_minute.contains(#[trigger] all[i])
            && all[i].time <= as_of && as_of - as_of as int % 86_400 <= all[i].time by {
            if i < rest.len() {
                assert(all[i] == rest[i]);
                let j = choose|j: int| 0 <= j < front.len() && front[j] == rest[i];
                assert(one_minute[j] == all[i]);
            } else {
                assert(one_minute[one_minute.len() - 1] == all[i]);
            }
        }
        assert forall|j: int|
            0 <= j < one_minute.len() && as_of - as_of as int % 86_400 <= (
            #[trigger] one_minute[j]).time <= as_of implies all.contains(one_minute[j]) by {
            if j < front.len() {
                assert(front[j] == one_minute[j]);
                let i = choose|i: int| 0 <= i < rest.len() && rest[i] == front[j];
                assert(all[i] == one_minute[j]);
            } else {
                assert(all[rest.len() as int] == one_minute[j]);
            }
        }
    }
}

} // verus!
