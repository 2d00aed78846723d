//! Places by number: where each of a row of numbered entries goes when the
//! entries are put in the order of their numbers.

use vstd::prelude::*;
use vstd::relations::injective_on;
use vstd::set_lib::{lemma_int_range, lemma_map_size, lemma_subset_equality, set_int_range};

verus! {

/// The numbers of numbered entries.
pub open spec fn numbers<T>(entries: Seq<(T, u32)>) -> Seq<u32> {
    entries.map_values(|entry: (T, u32)| entry.1)
}

/// Whether entry `j` comes before entry `i` when entries are ordered by
/// their numbers, and entries of one number by their position.
pub open spec fn precedes(keys: Seq<u32>, j: int, i: int) -> bool {
    keys[j] < keys[i] || (keys[j] == keys[i] && j < i)
}

/// How many of the first `n` entries come before entry `i`.
pub open spec fn count_before(keys: Seq<u32>, i: int, n: int) -> int
    decreases n,
{
    if n <= 0 {
        0
    } else {
        count_before(keys, i, n - 1) + if precedes(keys, n - 1, i) {
            1int
        } else {
            0int
        }
    }
}

/// The place of entry `i` when the entries are ordered by their numbers,
/// and entries of one number by their position: the number of entries that
/// come before it.
pub open spec fn slot(keys: Seq<u32>, i: int) -> int {
    count_before(keys, i, keys.len() as int)
}

/// Among the first `n` entries, fewer than `n` come before entry `i` once
/// `i` itself is among them.
pub proof fn lemma_count_bound(keys: Seq<u32>, i: int, n: int)
    requires
        0 <= i < keys.len(),
        0 <= n <= keys.len(),
    ensures
        0 <= count_before(keys, i, n) <= n,
        i < n ==> count_before(keys, i, n) < n,
    decreases n,
{
    if n > 0 {
        lemma_count_bound(keys, i, n - 1);
    }
}

/// An entry that comes before another has fewer entries before it.
pub proof fn lemma_count_monotone(keys: Seq<u32>, a: int, b: int, n: int)
    requires
        0 <= a < keys.len(),
        0 <= b < keys.len(),
        0 <= n <= keys.len(),
        precedes(keys, a, b),
    ensures
        count_before(keys, a, n) <= count_before(keys, b, n),
        a < n ==> count_before(keys, a, n) < count_before(keys, b, n),
    decreases n,
{
    if n > 0 {
        lemma_count_monotone(keys, a, b, n - 1);
    }
}

/// Every entry has a place among the entries.
pub proof fn lemma_slot_bound(keys: Seq<u32>, i: int)
    requires
        0 <= i < keys.len(),
    ensures
        0 <= slot(keys, i) < keys.len(),
{
    lemma_count_bound(keys, i, keys.len() as int);
}

/// Places follow numbers: an entry with a smaller number has an earlier
/// place, and of two entries with one number the earlier one has.
pub proof fn lemma_slot_order(keys: Seq<u32>, a: int, b: int)
    requires
        0 <= a < keys.len(),
        0 <= b < keys.len(),
        precedes(keys, a, b),
    ensures
        slot(keys, a) < slot(keys, b),
{
    lemma_count_monotone(keys, a, b, keys.len() as int);
}

/// No two entries share a place.
pub proof fn lemma_slot_distinct(keys: Seq<u32>, a: int, b: int)
    requires
        0 <= a < keys.len(),
        0 <= b < keys.len(),
        a != b,
    ensures
        slot(keys, a) != slot(keys, b),
{
    if precedes(keys, a, b) {
        lemma_slot_order(keys, a, b);
    } else {
        lemma_slot_order(keys, b, a);
    }
}


/// Every place is taken: the places of the entries are all the positions
/// there are. With `lemma_slot_distinct`, each place is taken by exactly
/// one entry.
pub proof fn lemma_slot_onto(keys: Seq<u32>, place: int)
    requires
        0 <= place < keys.len(),
    ensures
        exists|i: int| 0 <= i < keys.len() && slot(keys, i) == place,
{
    let n = keys.len() as int;
    let positions = set_int_range(0, n);
    let place_of = |i: int| slot(keys, i);
    let places = positions.map(place_of);
    lemma_int_range(0, n);
    assert(injective_on(place_of, positions)) by {
        assert forall|a: int, b: int|
            positions.contains(a) && positions.contains(b) && #[trigger] place_of(a)
                == #[trigger] place_of(b) implies a == b by {
            if a != b {
                lemma_slot_distinct(keys, a, b);
            }
        }
    }
    lemma_map_size(positions, places, place_of);
    assert(places.subset_of(positions)) by {
        assert forall|p: int| places.contains(p) implies positions.contains(p) by {
            let i = choose|i: int| positions.contains(i) && p == place_of(i);
            lemma_slot_bound(keys, i);
        }
    }
    lemma_subset_equality(places, positions);
    assert(places.contains(place));
    let i = choose|i: int| positions.contains(i) && place == place_of(i);
    assert(0 <= i < keys.len() && slot(keys, i) == place);
}

/// How many of `keys` are smaller than `value`.
pub open spec fn smaller_count(keys: Seq<u32>, value: u32) -> int
    decreases keys.len(),
{
    if keys.len() == 0 {
        0
    } else {
        smaller_count(keys.drop_last(), value) + if keys.last() < value {
            1int
        } else {
            0int
        }
    }
}

/// Among numbers that are all different, the entries before entry `i` are
/// those with a smaller number.
proof fn lemma_count_is_smaller_count(keys: Seq<u32>, i: int, n: int)
    requires
        keys.no_duplicates(),
        0 <= i < keys.len(),
        0 <= n <= keys.len(),
    ensures
        count_before(keys, i, n) == smaller_count(keys.take(n), keys[i]),
    decreases n,
{
    if n > 0 {
        lemma_count_is_smaller_count(keys, i, n - 1);
        assert(keys.take(n).drop_last() =~= keys.take(n - 1));
        assert(keys.take(n).last() == keys[n - 1]);
    }
}

/// Taking one number out takes it out of the count if it is smaller.
proof fn lemma_smaller_count_remove(keys: Seq<u32>, j: int, value: u32)
    requires
        0 <= j < keys.len(),
    ensures
        smaller_count(keys, value) == smaller_count(keys.remove(j), value) + if keys[j] < value {
            1int
        } else {
            0int
        },
    decreases keys.len(),
{
    if j == keys.len() - 1 {
        assert(keys.remove(j) =~= keys.drop_last());
    } else {
        lemma_smaller_count_remove(keys.drop_last(), j, value);
        assert(keys.remove(j).drop_last() =~= keys.drop_last().remove(j));
        assert(keys.remove(j).last() == keys.last());
    }
}

/// The count of smaller numbers does not depend on the order of the
/// numbers.
proof fn lemma_smaller_count_of_reordering(a: Seq<u32>, b: Seq<u32>, value: u32)
    requires
        a.to_multiset() == b.to_multiset(),
    ensures
        smaller_count(a, value) == smaller_count(b, value),
    decreases a.len(),
{
    broadcast use vstd::seq_lib::group_to_multiset_ensures;

    a.to_multiset_ensures();
    b.to_multiset_ensures();
    if a.len() == 0 {
        assert(b.len() == 0);
    } else {
        let last = a.last();
        assert(a.contains(last));
        assert(b.to_multiset().count(last) > 0);
        assert(b.contains(last));
        let j = choose|j: int| 0 <= j < b.len() && b[j] == last;
        let shorter = a.drop_last();
        shorter.to_multiset_ensures();
        assert(a =~= shorter.push(last));
        assert(shorter.to_multiset() =~= a.to_multiset().remove(last));
        assert(b.remove(j).to_multiset() =~= b.to_multiset().remove(last));
        lemma_smaller_count_of_reordering(shorter, b.remove(j), value);
        lemma_smaller_count_remove(b, j, value);
    }
}

/// Entries in another order have their numbers in another order.
pub proof fn lemma_numbers_of_reordering<T>(a: Seq<(T, u32)>, b: Seq<(T, u32)>)
    requires
        a.to_multiset() == b.to_multiset(),
    ensures
        numbers(a).to_multiset() == numbers(b).to_multiset(),
    decreases a.len(),
{
    broadcast use vstd::seq_lib::group_to_multiset_ensures;

    a.to_multiset_ensures();
    b.to_multiset_ensures();
    if a.len() == 0 {
        assert(b.len() == 0);
        assert(numbers(a) =~= numbers(b));
    } else {
        let last = a.last();
        assert(a.contains(last));
        assert(b.to_multiset().count(last) > 0);
        assert(b.contains(last));
        let j = choose|j: int| 0 <= j < b.len() && b[j] == last;
        let shorter = a.drop_last();
        shorter.to_multiset_ensures();
        assert(a =~= shorter.push(last));
        assert(shorter.to_multiset() =~= a.to_multiset().remove(last));
        assert(b.remove(j).to_multiset() =~= b.to_multiset().remove(last));
        lemma_numbers_of_reordering(shorter, b.remove(j));
        numbers(shorter).to_multiset_ensures();
        numbers(b).to_multiset_ensures();
        assert(numbers(a) =~= numbers(shorter).push(last.1));
        assert(numbers(b).remove(j) =~= numbers(b.remove(j)));
        assert(numbers(b)[j] == last.1);
        assert(numbers(b).to_multiset() =~= numbers(b).remove(j).to_multiset().insert(last.1));
    }
}

/// The place of an entry does not depend on the order of the entries, as
/// long as their numbers are all different: an entry of the same number has
/// the same place in any reordering.
pub proof fn lemma_place_ignores_order(a: Seq<u32>, b: Seq<u32>, i: int, j: int)
    requires
        a.to_multiset() == b.to_multiset(),
        a.no_duplicates(),
        0 <= i < a.len(),
        0 <= j < b.len(),
        a[i] == b[j],
    ensures
        slot(a, i) == slot(b, j),
{
    a.lemma_multiset_has_no_duplicates();
    b.lemma_multiset_has_no_duplicates_conv();
    lemma_count_is_smaller_count(a, i, a.len() as int);
    lemma_count_is_smaller_count(b, j, b.len() as int);
    assert(a.take(a.len() as int) =~= a);
    assert(b.take(b.len() as int) =~= b);
    lemma_smaller_count_of_reordering(a, b, a[i]);
}

} // verus!
