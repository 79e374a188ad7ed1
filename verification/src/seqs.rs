//! Ghost helpers on sequences that several modules state their contracts with.

use vstd::prelude::*;

verus! {

/// The least index at or after `from` whose element satisfies `p`, or the length if there is none.
pub open spec fn first_from<T>(s: Seq<T>, p: spec_fn(T) -> bool, from: int) -> int
    decreases s.len() - from,
{
    if from < 0 || from >= s.len() {
        s.len() as int
    } else if p(s[from]) {
        from
    } else {
        first_from(s, p, from + 1)
    }
}

/// The least index whose element satisfies `p`, or the length if there is none.
pub open spec fn first_where<T>(s: Seq<T>, p: spec_fn(T) -> bool) -> int {
    first_from(s, p, 0)
}

/// The images that `f` gives to the elements of `s`, in order, without those it gives none to.
pub open spec fn filter_mapped<T, U>(s: Seq<T>, f: spec_fn(T) -> Option<U>) -> Seq<U>
    decreases s.len(),
{
    if s.len() == 0 {
        Seq::empty()
    } else {
        let rest = filter_mapped(s.drop_last(), f);
        match f(s.last()) {
            Some(u) => rest.push(u),
            None => rest,
        }
    }
}

pub proof fn lemma_first_from<T>(s: Seq<T>, p: spec_fn(T) -> bool, from: int)
    requires
        0 <= from <= s.len(),
    ensures
        from <= first_from(s, p, from) <= s.len(),
        forall|j: int| from <= j < first_from(s, p, from) ==> !p(#[trigger] s[j]),
        first_from(s, p, from) < s.len() ==> p(s[first_from(s, p, from)]),
    decreases s.len() - from,
{
    if from < s.len() && !p(s[from]) {
        lemma_first_from(s, p, from + 1);
    }
}

/// `first_where` is the only index with nothing before it that satisfies `p`, and that either
/// satisfies `p` or is the length.
pub proof fn lemma_first_where<T>(s: Seq<T>, p: spec_fn(T) -> bool, r: int)
    requires
        0 <= r <= s.len(),
        forall|j: int| 0 <= j < r ==> !p(#[trigger] s[j]),
        r < s.len() ==> p(s[r]),
    ensures
        first_where(s, p) == r,
{
    lemma_first_from(s, p, 0);
    let f = first_where(s, p);
    if f < r {
        assert(!p(s[f]));
    }
}

pub proof fn lemma_first_where_bounds<T>(s: Seq<T>, p: spec_fn(T) -> bool)
    ensures
        0 <= first_where(s, p) <= s.len(),
        forall|j: int| 0 <= j < first_where(s, p) ==> !p(#[trigger] s[j]),
        first_where(s, p) < s.len() ==> p(s[first_where(s, p)]),
{
    lemma_first_from(s, p, 0);
}

/// One more element of `s` adds at most its own image.
pub proof fn lemma_filter_mapped_step<T, U>(s: Seq<T>, f: spec_fn(T) -> Option<U>, i: int)
    requires
        0 <= i < s.len(),
    ensures
        filter_mapped(s.take(i + 1), f) == (match f(s[i]) {
            Some(u) => filter_mapped(s.take(i), f).push(u),
            None => filter_mapped(s.take(i), f),
        }),
{
    assert(s.take(i + 1).drop_last() =~= s.take(i));
    assert(s.take(i + 1).last() == s[i]);
}

/// What is taken from two sequences, one behind the other, is what is taken from each, in that order.
pub proof fn filter_mapped_keeps_order<T, U>(a: Seq<T>, b: Seq<T>, f: spec_fn(T) -> Option<U>)
    ensures
        filter_mapped(a + b, f) == filter_mapped(a, f) + filter_mapped(b, f),
    decreases b.len(),
{
    if b.len() == 0 {
        assert(a + b =~= a);
    } else {
        filter_mapped_keeps_order(a, b.drop_last(), f);
        assert((a + b).drop_last() =~= a + b.drop_last());
        assert(filter_mapped(a + b, f) =~= filter_mapped(a, f) + filter_mapped(b, f));
    }
}

/// One element gives its image, or nothing where it has none.
pub proof fn filter_mapped_takes_images<T, U>(x: T, f: spec_fn(T) -> Option<U>)
    ensures
        f(x) matches Some(u) ==> filter_mapped(seq![x], f) == seq![u],
        f(x) is None ==> filter_mapped(seq![x], f).len() == 0,
{
    assert(seq![x].drop_last() =~= Seq::empty());
    assert(filter_mapped(seq![x].drop_last(), f) =~= Seq::empty());
    if let Some(u) = f(x) {
        assert(filter_mapped(seq![x], f) =~= seq![u]);
    }
}

/// Everything that is taken is the image of an element, and every element that has an image gives it.
pub proof fn filter_mapped_is_of_images<T, U>(s: Seq<T>, f: spec_fn(T) -> Option<U>)
    ensures
        filter_mapped(s, f).len() <= s.len(),
        forall|i: int|
            0 <= i < filter_mapped(s, f).len() ==> is_image(s, f, #[trigger] filter_mapped(s, f)[i]),
        forall|j: int|
            0 <= j < s.len() ==> (f(#[trigger] s[j]) matches Some(u) ==> filter_mapped(
                s,
                f,
            ).contains(u)),
        (forall|j: int| 0 <= j < s.len() ==> f(#[trigger] s[j]) is Some) ==> filter_mapped(
            s,
            f,
        ).len() == s.len(),
    decreases s.len(),
{
    if s.len() > 0 {
        let front = s.drop_last();
        let rest = filter_mapped(front, f);
        let all = filter_mapped(s, f);
        filter_mapped_is_of_images(front, f);
        assert forall|i: int| 0 <= i < all.len() implies is_image(s, f, #[trigger] all[i]) by {
            if i < rest.len() {
                assert(is_image(front, f, rest[i]));
                let j = choose|j: int| 0 <= j < front.len() && f(#[trigger] front[j]) == Some(rest[i]);
                assert(f(s[j]) == Some(all[i]));
            } else {
                assert(f(s[s.len() - 1]) == Some(all[i]));
            }
        }
        assert forall|j: int| 0 <= j < s.len() implies (f(#[trigger] s[j]) matches Some(u)
            ==> all.contains(u)) by {
            if let Some(u) = f(s[j]) {
                if j < front.len() {
                    assert(front[j] == s[j]);
                    let i = choose|i: int| 0 <= i < rest.len() && rest[i] == u;
                    assert(all[i] == u);
                } else {
                    assert(all[rest.len() as int] == u);
                }
            }
        }
        if forall|j: int| 0 <= j < s.len() ==> f(#[trigger] s[j]) is Some {
            assert forall|j: int| 0 <= j < front.len() implies f(#[trigger] front[j]) is Some by {
                assert(f(s[j]) is Some);
            }
            assert(f(s[s.len() - 1]) is Some);
        }
    }
}

/// Whether `f` gives a value to an element.
pub open spec fn is_image<T, U>(s: Seq<T>, f: spec_fn(T) -> Option<U>, u: U) -> bool {
    exists|j: int| 0 <= j < s.len() && f(#[trigger] s[j]) == Some(u)
}

} // verus!
