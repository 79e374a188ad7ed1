//! Bars that were fetched, and how long they are fresh.

use vstd::prelude::*;

use crate::tables::{find, keyed, lemma_place, lemma_unique_push, lemma_unique_update, place, rows, unique, Keyed};
use crate::seqs::lemma_first_where_bounds;
use crate::types::{Candle, Nanos};

verus! {

/// How long bars are fresh.
pub const DEFAULT_TTL: Nanos = 60_000_000_000;

#[derive(Debug)]
pub struct CacheEntry {
    pub code: String,
    pub fetched_at: Nanos,
    pub bars: Vec<Candle>,
}

/// What is kept of a code.
#[verifier::ext_equal]
pub struct CachedView {
    pub code: Seq<char>,
    pub fetched_at: Nanos,
    pub bars: Seq<Candle>,
}

impl View for CacheEntry {
    type V = CachedView;

    open spec fn view(&self) -> CachedView {
        CachedView { code: self.code@, fetched_at: self.fetched_at, bars: self.bars@ }
    }
}

impl Keyed for CacheEntry {
    open spec fn key_of(row: CachedView) -> Seq<char> {
        row.code
    }

    fn key(&self) -> (key: &str) {
        self.code.as_str()
    }
}

/// The bars of each code, with the time at which they were fetched. The caller fetches at most once
/// at a time for a code, and asks again before it does.
#[derive(Debug)]
pub struct CandleCache {
    entries: Vec<CacheEntry>,
    ttl: Nanos,
}

#[verifier::ext_equal]
pub struct CacheView {
    pub entries: Seq<CachedView>,
    pub ttl: Nanos,
}

impl View for CandleCache {
    type V = CacheView;

    closed spec fn view(&self) -> CacheView {
        CacheView { entries: rows(self.entries@), ttl: self.ttl }
    }
}

impl CacheView {
    /// No code is kept twice.
    pub open spec fn wf(self) -> bool {
        unique::<CacheEntry>(self.entries)
    }

    /// Where a code is kept, or the length where it is not.
    pub open spec fn index(self, code: Seq<char>) -> int {
        place::<CacheEntry>(self.entries, code)
    }

    /// The bars of a code that are fresh at a time: those fetched less than the lifetime before.
    pub open spec fn fresh(self, code: Seq<char>, now: Nanos) -> Option<Seq<Candle>> {
        let i = self.index(code);
        if 0 <= i < self.entries.len() && now - self.entries[i].fetched_at < self.ttl {
            Some(self.entries[i].bars)
        } else {
            None
        }
    }

    /// The cache with the bars of a code.
    pub open spec fn with(self, code: Seq<char>, bars: Seq<Candle>, now: Nanos) -> CacheView {
        let i = self.index(code);
        let entry = CachedView { code, fetched_at: now, bars };
        CacheView {
            entries: if 0 <= i < self.entries.len() {
                self.entries.update(i, entry)
            } else {
                self.entries.push(entry)
            },
            ..self
        }
    }
}

fn copy_bars(bars: &Vec<Candle>) -> (copy: Vec<Candle>)
    ensures
        copy@ == bars@,
{
    let mut copy: Vec<Candle> = Vec::new();
    let mut i: usize = 0;
    while i < bars.len()
        invariant
            i <= bars@.len(),
            copy@ == bars@.take(i as int),
        decreases bars@.len() - i,
    {
        copy.push(bars[i]);
        i += 1;
        assert(bars@.take(i as int) =~= bars@.take(i - 1).push(bars@[i - 1]));
    }
    assert(bars@.take(i as int) =~= bars@);
    copy
}

impl CandleCache {
    pub fn new() -> (cache: Self)
        ensures
            cache@ == (CacheView { entries: Seq::empty(), ttl: DEFAULT_TTL }),
            cache@.wf(),
    {
        CandleCache::with_ttl(DEFAULT_TTL)
    }

    pub fn with_ttl(ttl: Nanos) -> (cache: Self)
        ensures
            cache@ == (CacheView { entries: Seq::empty(), ttl }),
            cache@.wf(),
    {
        let cache = CandleCache { entries: Vec::new(), ttl };
        assert(cache@.entries =~= Seq::empty());
        cache
    }

    /// The bars of a code that are fresh.
    pub fn fresh(&self, code: &str, now: Nanos) -> (bars: Option<Vec<Candle>>)
        ensures
            match bars {
                Some(b) => self@.fresh(code@, now) == Some(b@),
                None => self@.fresh(code@, now) is None,
            },
    {
        match find(&self.entries, code) {
            Some(i) => {
                assert(self@.entries[i as int] == self.entries@[i as int]@);
                let fetched_at: Nanos = self.entries[i].fetched_at;
                let is_fresh = if now >= fetched_at {
                    now - fetched_at < self.ttl
                } else {
                    true
                };
                if is_fresh {
                    Some(copy_bars(&self.entries[i].bars))
                } else {
                    None
                }
            },
            None => None,
        }
    }

    /// Keeps the bars of a code. Where a fetch fails nothing is kept.
    pub fn store(&mut self, code: &str, bars: Vec<Candle>, now: Nanos)
        requires
            old(self)@.wf(),
        ensures
            final(self)@ == old(self)@.with(code@, bars@, now),
            final(self)@.wf(),
    {
        let ghost before = self@;
        let entry = CacheEntry { code: code.to_owned(), fetched_at: now, bars };
        match find(&self.entries, code) {
            Some(i) => {
                self.entries.set(i, entry);
                proof {
                    assert(self@ =~= before.with(code@, bars@, now));
                    lemma_unique_update::<CacheEntry>(before.entries, i as int, entry@);
                }
            },
            None => {
                self.entries.push(entry);
                proof {
                    assert(self@ =~= before.with(code@, bars@, now));
                    lemma_unique_push::<CacheEntry>(before.entries, entry@);
                }
            },
        }
    }
}

/// What was stored is fresh until its lifetime is over, and then not, and the other codes are as
/// they were.
pub proof fn stored_bars_are_fresh_for_a_while(
    cache: CacheView,
    code: Seq<char>,
    bars: Seq<Candle>,
    at: Nanos,
    now: Nanos,
    other: Seq<char>,
)
    requires
        cache.wf(),
        at <= now,
        other != code,
    ensures
        cache.with(code, bars, at).fresh(code, now) == (if now - at < cache.ttl {
            Some(bars)
        } else {
            None
        }),
        cache.with(code, bars, at).fresh(other, now) == cache.fresh(other, now),
        cache.with(code, bars, at).wf(),
{
    let after = cache.with(code, bars, at);
    let entry = CachedView { code, fetched_at: at, bars };
    let i = cache.index(code);
    lemma_first_where_bounds(cache.entries, keyed::<CacheEntry>(code));
    if i < cache.entries.len() {
        lemma_unique_update::<CacheEntry>(cache.entries, i, entry);
        lemma_place::<CacheEntry>(after.entries, code, i);
    } else {
        lemma_unique_push::<CacheEntry>(cache.entries, entry);
        lemma_place::<CacheEntry>(after.entries, code, cache.entries.len() as int);
    }
    let p = keyed::<CacheEntry>(other);
    let j = cache.index(other);
    lemma_first_where_bounds(cache.entries, p);
    if j < cache.entries.len() {
        assert(p(cache.entries[j]));
        assert(after.entries[j] == cache.entries[j]);
        lemma_place::<CacheEntry>(after.entries, other, j);
    } else {
        assert forall|k: int| 0 <= k < after.entries.len() implies !p(#[trigger] after.entries[k]) by {
            if k < cache.entries.len() && k != i {
                assert(!p(cache.entries[k]));
            }
        }
        crate::seqs::lemma_first_where(after.entries, p, after.entries.len() as int);
    }
}

} // verus!
