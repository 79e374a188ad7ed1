//! Tables whose rows a text identifies.

use vstd::prelude::*;

use crate::seqs::{first_where, lemma_first_where, lemma_first_where_bounds};
use crate::text::same;

verus! {

/// The rows of a table, by what they say.
pub open spec fn rows<T: View>(table: Seq<T>) -> Seq<T::V> {
    table.map_values(|row: T| row@)
}

/// A row that a text identifies.
pub trait Keyed: View {
    spec fn key_of(row: Self::V) -> Seq<char>;

    fn key(&self) -> (key: &str)
        ensures
            key@ == Self::key_of(self@),
    ;
}

/// Whether a row has a key.
pub open spec fn keyed<T: Keyed>(key: Seq<char>) -> spec_fn(T::V) -> bool {
    |row: T::V| T::key_of(row) == key
}

/// Where the row with a key stands, or the length where there is none.
pub open spec fn place<T: Keyed>(table: Seq<T::V>, key: Seq<char>) -> int {
    first_where(table, keyed::<T>(key))
}

/// Whether there is a row with a key.
pub open spec fn holds<T: Keyed>(table: Seq<T::V>, key: Seq<char>) -> bool {
    place::<T>(table, key) < table.len()
}

/// No two rows have the same key.
pub open spec fn unique<T: Keyed>(table: Seq<T::V>) -> bool {
    forall|i: int, j: int|
        #![trigger table[i], table[j]]
        0 <= i < j < table.len() ==> T::key_of(table[i]) != T::key_of(table[j])
}

pub proof fn lemma_has<T: Keyed>(table: Seq<T::V>, key: Seq<char>, i: int)
    requires
        0 <= i < table.len(),
        T::key_of(table[i]) == key,
    ensures
        holds::<T>(table, key),
{
    let p = keyed::<T>(key);
    lemma_first_where_bounds(table, p);
    assert(p(table[i]));
}

/// One more row under a new key keeps the keys apart.
pub proof fn lemma_unique_push<T: Keyed>(table: Seq<T::V>, row: T::V)
    requires
        unique::<T>(table),
        !holds::<T>(table, T::key_of(row)),
    ensures
        unique::<T>(table.push(row)),
{
    let grown = table.push(row);
    assert forall|i: int, j: int|
        #![trigger grown[i], grown[j]]
        0 <= i < j < grown.len() implies T::key_of(grown[i]) != T::key_of(grown[j]) by {
        if j == table.len() && T::key_of(table[i]) == T::key_of(row) {
            lemma_has::<T>(table, T::key_of(row), i);
        }
    }
}

/// A row changed under the same key keeps the keys apart.
pub proof fn lemma_unique_update<T: Keyed>(table: Seq<T::V>, i: int, row: T::V)
    requires
        unique::<T>(table),
        0 <= i < table.len(),
        T::key_of(row) == T::key_of(table[i]),
    ensures
        unique::<T>(table.update(i, row)),
{
}

/// Rows changed under the same keys keep the keys apart.
pub proof fn lemma_unique_same<T: Keyed>(before: Seq<T::V>, after: Seq<T::V>)
    requires
        unique::<T>(before),
        before.len() == after.len(),
        forall|i: int|
            0 <= i < before.len() ==> T::key_of(#[trigger] after[i]) == T::key_of(before[i]),
    ensures
        unique::<T>(after),
{
    assert forall|i: int, j: int|
        #![trigger after[i], after[j]]
        0 <= i < j < after.len() implies T::key_of(after[i]) != T::key_of(after[j]) by {
        assert(T::key_of(before[i]) != T::key_of(before[j]));
    }
}

/// Where the keys are apart, a row with a key is the first.
pub proof fn lemma_place<T: Keyed>(table: Seq<T::V>, key: Seq<char>, i: int)
    requires
        unique::<T>(table),
        0 <= i < table.len(),
        T::key_of(table[i]) == key,
    ensures
        place::<T>(table, key) == i,
{
    let p = keyed::<T>(key);
    assert forall|j: int| 0 <= j < i implies !p(#[trigger] table[j]) by {
        assert(T::key_of(table[j]) != T::key_of(table[i]));
    }
    assert(p(table[i]));
    lemma_first_where(table, p, i);
}

/// Finds the row with a key.
pub fn find<T: Keyed>(table: &Vec<T>, key: &str) -> (found: Option<usize>)
    ensures
        match found {
            Some(i) => i == place::<T>(rows(table@), key@) && i < table@.len() && T::key_of(
                table@[i as int]@,
            ) == key@,
            None => !holds::<T>(rows(table@), key@),
        },
{
    let ghost views = rows(table@);
    let ghost p = keyed::<T>(key@);
    let mut i: usize = 0;
    while i < table.len()
        invariant
            i <= table@.len(),
            views == rows(table@),
            p == keyed::<T>(key@),
            forall|j: int| 0 <= j < i ==> !p(#[trigger] views[j]),
        decreases table@.len() - i,
    {
        assert(views[i as int] == table@[i as int]@);
        if same(table[i].key(), key) {
            proof {
                lemma_first_where(views, p, i as int);
            }
            return Some(i);
        }
        i += 1;
    }
    proof {
        lemma_first_where(views, p, i as int);
    }
    None
}

/// Whether no two rows have the same key.
pub fn keys_differ<T: Keyed>(table: &Vec<T>) -> (yes: bool)
    ensures
        yes == unique::<T>(rows(table@)),
{
    let ghost views = rows(table@);
    let mut j: usize = 0;
    while j < table.len()
        invariant
            j <= table@.len(),
            views == rows(table@),
            forall|a: int, b: int|
                #![trigger views[a], views[b]]
                0 <= a < b < j ==> T::key_of(views[a]) != T::key_of(views[b]),
        decreases table@.len() - j,
    {
        let mut i: usize = 0;
        while i < j
            invariant
                i <= j < table@.len(),
                views == rows(table@),
                forall|a: int|
                    0 <= a < i ==> T::key_of(#[trigger] views[a]) != T::key_of(views[j as int]),
            decreases j - i,
        {
            assert(views[i as int] == table@[i as int]@);
            assert(views[j as int] == table@[j as int]@);
            if same(table[i].key(), table[j].key()) {
                return false;
            }
            i += 1;
        }
        j += 1;
    }
    true
}

} // verus!
