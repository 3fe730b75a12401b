//! Ordering of mirror list entries by a sorting strategy.

use crate::target_configs::archlinux::SortingStrategy;
use crate::targets::archlinux::ArchMirror;
use rand::rngs::ThreadRng;
use rand::seq::SliceRandom;
use vstd::prelude::*;
use vstd::seq_lib::{to_multiset_build, to_multiset_contains, to_multiset_insert, to_multiset_len};

verus! {

/// The place of an optional number in the order: an absent number stands
/// before every present one, present ones stand by their value.
pub open spec fn rank(value: Option<i64>) -> int {
    match value {
        Some(v) => v as int,
        None => i64::MIN - 1,
    }
}

/// The key by which `strategy` orders an entry; entries are ordered by
/// ascending key. `Random` gives every entry the same key.
pub open spec fn sort_key(strategy: SortingStrategy, entry: ArchMirror) -> int {
    match strategy {
        SortingStrategy::Random => 0,
        SortingStrategy::DelayAscending => rank(entry.delay),
        SortingStrategy::DelayDescending => -rank(entry.delay),
        SortingStrategy::ScoreAscending => rank(entry.score),
        SortingStrategy::ScoreDescending => -rank(entry.score),
    }
}

/// Where an entry with key `key` goes into `entries`: behind the last entry
/// whose key is not greater.
pub open spec fn insertion_point(entries: Seq<ArchMirror>, strategy: SortingStrategy, key: int) -> nat
    decreases entries.len(),
{
    if entries.len() == 0 {
        0
    } else if sort_key(strategy, entries.last()) <= key {
        entries.len()
    } else {
        insertion_point(entries.drop_last(), strategy, key)
    }
}

/// `entries` in ascending order of their keys; entries with equal keys keep
/// the order in which they came.
pub open spec fn stable_sort(entries: Seq<ArchMirror>, strategy: SortingStrategy) -> Seq<ArchMirror>
    decreases entries.len(),
{
    if entries.len() == 0 {
        entries
    } else {
        let sorted = stable_sort(entries.drop_last(), strategy);
        let last = entries.last();
        sorted.insert(insertion_point(sorted, strategy, sort_key(strategy, last)) as int, last)
    }
}

/// Whether `entries` stand in ascending order of their keys.
pub open spec fn is_ordered(entries: Seq<ArchMirror>, strategy: SortingStrategy) -> bool {
    forall|i: int, j: int|
        0 <= i < j < entries.len() ==> sort_key(strategy, entries[i]) <= sort_key(
            strategy,
            entries[j],
        )
}

fn ranks_above(a: Option<i64>, b: Option<i64>) -> (above: bool)
    ensures
        above == (rank(a) > rank(b)),
{
    match a {
        Some(x) => match b {
            Some(y) => x > y,
            None => true,
        },
        None => false,
    }
}

/// Whether `a` must stand behind `b` under `strategy`.
pub fn comes_after(a: &ArchMirror, b: &ArchMirror, strategy: SortingStrategy) -> (after: bool)
    ensures
        after == (sort_key(strategy, *a) > sort_key(strategy, *b)),
{
    match strategy {
        SortingStrategy::Random => false,
        SortingStrategy::DelayAscending => ranks_above(a.delay, b.delay),
        SortingStrategy::DelayDescending => ranks_above(b.delay, a.delay),
        SortingStrategy::ScoreAscending => ranks_above(a.score, b.score),
        SortingStrategy::ScoreDescending => ranks_above(b.score, a.score),
    }
}

/// The insertion point is the one place with no greater key before it and
/// only greater keys from it on.
pub proof fn lemma_insertion_point_is(entries: Seq<ArchMirror>, strategy: SortingStrategy, key: int, at: int)
    requires
        0 <= at <= entries.len(),
        forall|k: int| at <= k < entries.len() ==> sort_key(strategy, entries[k]) > key,
        at == 0 || sort_key(strategy, entries[at - 1]) <= key,
    ensures
        insertion_point(entries, strategy, key) == at,
    decreases entries.len() - at,
{
    if at < entries.len() {
        let shorter = entries.drop_last();
        assert forall|k: int| at <= k < shorter.len() implies sort_key(strategy, shorter[k]) > key by {
            assert(shorter[k] == entries[k]);
        }
        if at > 0 {
            assert(shorter[at - 1] == entries[at - 1]);
        }
        lemma_insertion_point_is(shorter, strategy, key, at);
    }
}

/// Sorts `entries` in place in ascending order of their keys; entries with
/// equal keys keep the order in which they came.
pub fn sort_entries(entries: &mut Vec<ArchMirror>, strategy: SortingStrategy)
    ensures
        final(entries)@ == stable_sort(old(entries)@, strategy),
{
    let n = entries.len();
    let mut i: usize = 0;
    proof {
        assert(entries@.take(0) =~= stable_sort(old(entries)@.take(0), strategy));
        assert(entries@.skip(0) =~= old(entries)@.skip(0));
    }
    while i < n
        invariant
            i <= n,
            n == entries@.len(),
            n == old(entries)@.len(),
            entries@.take(i as int) == stable_sort(old(entries)@.take(i as int), strategy),
            entries@.skip(i as int) == old(entries)@.skip(i as int),
        decreases n - i,
    {
        let ghost before = entries@;
        let ghost sorted = before.take(i as int);
        let entry = entries.remove(i);
        proof {
            assert(entry == before.skip(i as int)[0]);
            assert(entry == old(entries)@[i as int]);
            assert(entries@.take(i as int) =~= sorted);
        }
        let mut j: usize = i;
        while j > 0 && comes_after(&entries[j - 1], &entry, strategy)
            invariant
                j <= i,
                i < n,
                entries@.len() == n - 1,
                entries@.take(i as int) == sorted,
                forall|k: int| j <= k < i ==> sort_key(strategy, sorted[k]) > sort_key(strategy, entry),
            decreases j,
        {
            proof {
                assert(sorted[j - 1] == entries@[j - 1]);
            }
            j -= 1;
        }
        proof {
            if j > 0 {
                assert(sorted[j - 1] == entries@[j - 1]);
            }
            lemma_insertion_point_is(sorted, strategy, sort_key(strategy, entry), j as int);
        }
        entries.insert(j, entry);
        proof {
            let upto = old(entries)@.take(i + 1);
            assert(upto.drop_last() =~= old(entries)@.take(i as int));
            assert(upto.last() == entry);
            assert(entries@.take(i + 1) =~= sorted.insert(j as int, entry));
            assert(entries@.skip(i + 1) =~= before.skip(i + 1));
            assert(before.skip(i + 1) =~= before.skip(i as int).skip(1));
            assert(old(entries)@.skip(i + 1) =~= old(entries)@.skip(i as int).skip(1));
        }
        i += 1;
    }
    proof {
        assert(entries@.take(n as int) =~= entries@);
        assert(old(entries)@.take(n as int) =~= old(entries)@);
    }
}

/// The generator type of `rand`, carried through as an opaque value.
#[verifier::external_type_specification]
#[verifier::external_body]
pub struct ExThreadRng(rand::rngs::ThreadRng);

/// Trusted: `rand::rng`, the handle to the thread's generator. Nothing is
/// claimed of the generator. The call panics where the operating system's
/// source of randomness cannot be set up.
pub assume_specification[ rand::rng ]() -> (generator: ThreadRng)
;

/// Trusted: `SliceRandom::shuffle` of `rand` on the entries. The shuffle only
/// swaps entries, so what comes back holds the same entries, each as often as
/// before; nothing is claimed of their order.
#[verifier::external_body]
fn shuffle(entries: &mut Vec<ArchMirror>, generator: &mut ThreadRng)
    ensures
        final(entries)@.to_multiset() == old(entries)@.to_multiset(),
{
    entries.shuffle(generator);
}

/// Whether `ordered` is an order that `strategy` allows for `entries`: any
/// permutation for `Random`, the stable ascending order of the keys otherwise.
pub open spec fn is_ordering_of(ordered: Seq<ArchMirror>, entries: Seq<ArchMirror>, strategy: SortingStrategy) -> bool {
    if strategy is Random {
        ordered.to_multiset() == entries.to_multiset()
    } else {
        ordered == stable_sort(entries, strategy)
    }
}

/// Orders `entries` in place as `strategy` asks: `Random` shuffles them with
/// the thread's generator, every other strategy sorts them by its key, ties
/// in the order in which they came.
pub fn sort_mirrors(entries: &mut Vec<ArchMirror>, strategy: SortingStrategy)
    ensures
        is_ordering_of(final(entries)@, old(entries)@, strategy),
{
    match strategy {
        SortingStrategy::Random => {
            let mut generator = rand::rng();
            shuffle(entries, &mut generator);
        },
        _ => {
            sort_entries(entries, strategy);
        },
    }
}

/// Whatever the strategy, ordering keeps every entry, as often as it occurs.
pub proof fn lemma_ordering_permutes(ordered: Seq<ArchMirror>, entries: Seq<ArchMirror>, strategy: SortingStrategy)
    requires
        is_ordering_of(ordered, entries, strategy),
    ensures
        ordered.to_multiset() == entries.to_multiset(),
        ordered.len() == entries.len(),
{
    lemma_sort_permutes(entries, strategy);
    to_multiset_len(ordered);
    to_multiset_len(entries);
}

/// What the insertion point separates: no entry from it on has a key that is
/// not greater, and the entry before it has one.
pub proof fn lemma_insertion_point_bounds(entries: Seq<ArchMirror>, strategy: SortingStrategy, key: int)
    ensures
        insertion_point(entries, strategy, key) <= entries.len(),
        forall|k: int|
            insertion_point(entries, strategy, key) <= k < entries.len() ==> sort_key(
                strategy,
                #[trigger] entries[k],
            ) > key,
        insertion_point(entries, strategy, key) > 0 ==> sort_key(
            strategy,
            entries[insertion_point(entries, strategy, key) - 1],
        ) <= key,
    decreases entries.len(),
{
    if entries.len() > 0 && sort_key(strategy, entries.last()) > key {
        let shorter = entries.drop_last();
        lemma_insertion_point_bounds(shorter, strategy, key);
        let at = insertion_point(shorter, strategy, key);
        assert forall|k: int| at <= k < entries.len() implies sort_key(
            strategy,
            #[trigger] entries[k],
        ) > key by {
            if k < shorter.len() {
                assert(shorter[k] == entries[k]);
            }
        }
        if at > 0 {
            assert(shorter[at - 1] == entries[at - 1]);
        }
    }
}

/// Sorting keeps every entry, as often as it occurs.
pub proof fn lemma_sort_permutes(entries: Seq<ArchMirror>, strategy: SortingStrategy)
    ensures
        stable_sort(entries, strategy).len() == entries.len(),
        stable_sort(entries, strategy).to_multiset() == entries.to_multiset(),
    decreases entries.len(),
{
    if entries.len() > 0 {
        let shorter = entries.drop_last();
        let last = entries.last();
        lemma_sort_permutes(shorter, strategy);
        let sorted = stable_sort(shorter, strategy);
        let at = insertion_point(sorted, strategy, sort_key(strategy, last));
        lemma_insertion_point_bounds(sorted, strategy, sort_key(strategy, last));
        to_multiset_insert(sorted, at as int, last);
        to_multiset_build(shorter, last);
        assert(shorter.push(last) =~= entries);
    }
}

/// Every entry of the sorted sequence is an entry of the given one.
pub proof fn lemma_sorted_entry_is_given(entries: Seq<ArchMirror>, strategy: SortingStrategy, i: int) -> (j: int)
    requires
        0 <= i < entries.len(),
    ensures
        0 <= j < entries.len(),
        entries[j] == stable_sort(entries, strategy)[i],
{
    lemma_sort_permutes(entries, strategy);
    let sorted = stable_sort(entries, strategy);
    assert(sorted.contains(sorted[i]));
    to_multiset_contains(sorted, sorted[i]);
    to_multiset_contains(entries, sorted[i]);
    choose|j: int| 0 <= j < entries.len() && entries[j] == sorted[i]
}

/// The sorted sequence stands in ascending order of its keys.
pub proof fn lemma_sort_orders(entries: Seq<ArchMirror>, strategy: SortingStrategy)
    ensures
        is_ordered(stable_sort(entries, strategy), strategy),
    decreases entries.len(),
{
    if entries.len() > 0 {
        let shorter = entries.drop_last();
        let last = entries.last();
        let key = sort_key(strategy, last);
        lemma_sort_orders(shorter, strategy);
        let sorted = stable_sort(shorter, strategy);
        let at = insertion_point(sorted, strategy, key) as int;
        lemma_insertion_point_bounds(sorted, strategy, key);
        let out = sorted.insert(at, last);
        assert forall|i: int, j: int| 0 <= i < j < out.len() implies sort_key(strategy, out[i])
            <= sort_key(strategy, out[j]) by {
            if i < at {
                assert(out[i] == sorted[i]);
                assert(sort_key(strategy, sorted[i]) <= sort_key(strategy, sorted[at - 1]));
            } else if i > at {
                assert(out[i] == sorted[i - 1]);
            }
            if j < at {
                assert(out[j] == sorted[j]);
            } else if j > at {
                assert(out[j] == sorted[j - 1]);
                assert(sort_key(strategy, sorted[j - 1]) > key);
            }
        }
    }
}

/// The entries whose key under `strategy` is `key`.
pub open spec fn has_key(strategy: SortingStrategy, key: int) -> spec_fn(ArchMirror) -> bool {
    |entry: ArchMirror| sort_key(strategy, entry) == key
}

/// Sorting is stable: the entries that share a key stand in the sorted
/// sequence in the order in which they were given.
pub proof fn lemma_sort_keeps_ties_in_order(entries: Seq<ArchMirror>, strategy: SortingStrategy, key: int)
    ensures
        stable_sort(entries, strategy).filter(has_key(strategy, key)) == entries.filter(
            has_key(strategy, key),
        ),
    decreases entries.len(),
{
    let tied = has_key(strategy, key);
    if entries.len() > 0 {
        let shorter = entries.drop_last();
        let last = entries.last();
        let sorted = stable_sort(shorter, strategy);
        let at = insertion_point(sorted, strategy, sort_key(strategy, last)) as int;
        lemma_insertion_point_bounds(sorted, strategy, sort_key(strategy, last));
        lemma_sort_keeps_ties_in_order(shorter, strategy, key);
        let head = sorted.take(at);
        let tail = sorted.skip(at);
        assert(sorted =~= head + tail);
        assert(sorted.insert(at, last) =~= head.push(last) + tail);
        assert(shorter.push(last) =~= entries);
        Seq::filter_distributes_over_add(head, tail, tied);
        Seq::filter_distributes_over_add(head.push(last), tail, tied);
        head.lemma_filter_push(last, tied);
        shorter.lemma_filter_push(last, tied);
        if tied(last) {
            assert forall|k: int| 0 <= k < tail.len() implies !tied(#[trigger] tail[k]) by {
                assert(tail[k] == sorted[at + k]);
            }
            tail.lemma_all_neg_filter_empty(tied);
            assert(head.filter(tied).push(last) + tail.filter(tied) =~= (head.filter(tied)
                + tail.filter(tied)).push(last));
        }
    }
}

/// The strategy that orders by the same number in the other direction.
pub open spec fn opposite(strategy: SortingStrategy) -> SortingStrategy {
    match strategy {
        SortingStrategy::Random => SortingStrategy::Random,
        SortingStrategy::DelayAscending => SortingStrategy::DelayDescending,
        SortingStrategy::DelayDescending => SortingStrategy::DelayAscending,
        SortingStrategy::ScoreAscending => SortingStrategy::ScoreDescending,
        SortingStrategy::ScoreDescending => SortingStrategy::ScoreAscending,
    }
}

/// Whether no two entries have the same key under `strategy`.
pub open spec fn has_distinct_keys(entries: Seq<ArchMirror>, strategy: SortingStrategy) -> bool {
    forall|i: int, j: int|
        0 <= i < j < entries.len() ==> sort_key(strategy, entries[i]) != sort_key(
            strategy,
            entries[j],
        )
}

/// Where no two entries have the same key, sorting by the opposite strategy
/// yields exactly the reverse order: descending delay is ascending delay read
/// backwards, and likewise for the score.
pub proof fn lemma_opposite_sort_is_reverse(entries: Seq<ArchMirror>, strategy: SortingStrategy)
    requires
        has_distinct_keys(entries, strategy),
    ensures
        stable_sort(entries, opposite(strategy)) == stable_sort(entries, strategy).reverse(),
    decreases entries.len(),
{
    let other = opposite(strategy);
    if entries.len() == 0 {
        assert(stable_sort(entries, other) =~= stable_sort(entries, strategy).reverse());
    } else {
        let shorter = entries.drop_last();
        let last = entries.last();
        let key = sort_key(strategy, last);
        assert(has_distinct_keys(shorter, strategy)) by {
            assert forall|i: int, j: int| 0 <= i < j < shorter.len() implies sort_key(
                strategy,
                shorter[i],
            ) != sort_key(strategy, shorter[j]) by {
                assert(shorter[i] == entries[i] && shorter[j] == entries[j]);
            }
        }
        lemma_opposite_sort_is_reverse(shorter, strategy);
        let up = stable_sort(shorter, strategy);
        let down = stable_sort(shorter, other);
        let n = shorter.len() as int;
        lemma_sort_permutes(shorter, strategy);
        lemma_sort_orders(shorter, strategy);
        let at = insertion_point(up, strategy, key) as int;
        lemma_insertion_point_bounds(up, strategy, key);
        assert(sort_key(other, last) == -key);
        assert forall|k: int| 0 <= k < n implies sort_key(strategy, #[trigger] up[k]) != key by {
            let j = lemma_sorted_entry_is_given(shorter, strategy, k);
            assert(shorter[j] == entries[j]);
            assert(entries[n] == last);
        }
        assert forall|k: int| n - at <= k < n implies sort_key(other, down[k]) > -key by {
            assert(down[k] == up[n - 1 - k]);
            assert(sort_key(other, down[k]) == -sort_key(strategy, up[n - 1 - k]));
            if n - 1 - k < at - 1 {
                assert(sort_key(strategy, up[n - 1 - k]) <= sort_key(strategy, up[at - 1]));
            }
        }
        if n - at > 0 {
            assert(down[n - at - 1] == up[at]);
            assert(sort_key(other, down[n - at - 1]) == -sort_key(strategy, up[at]));
        }
        lemma_insertion_point_is(down, other, -key, n - at);
        assert(up.insert(at, last).reverse() =~= down.insert(n - at, last));
    }
}

} // verus!
