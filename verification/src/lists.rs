//! Facts about concatenated and filtered lists.

use vstd::prelude::*;

verus! {

/// The first item that passes the test.
pub open spec fn first_match<T>(items: Seq<T>, test: spec_fn(T) -> bool) -> Option<T> {
    if items.filter(test).len() == 0 {
        None
    } else {
        Some(items.filter(test)[0])
    }
}

/// A list of one item passes or fails as the item does.
pub(crate) proof fn lemma_filter_one<T>(item: T, test: spec_fn(T) -> bool)
    ensures
        seq![item].filter(test) == (if test(item) {
            seq![item]
        } else {
            Seq::empty()
        }),
{
    reveal_with_fuel(Seq::filter, 2);
    assert(seq![item].drop_last() =~= Seq::<T>::empty());
    assert(seq![item].last() == item);
    if test(item) {
        assert(seq![item].filter(test) =~= seq![item]);
    } else {
        assert(seq![item].filter(test) =~= Seq::empty());
    }
}

/// Nothing has no match.
pub(crate) proof fn lemma_no_match_in_nothing<T>(test: spec_fn(T) -> bool)
    ensures
        first_match(Seq::<T>::empty(), test) is None,
{
    reveal(Seq::filter);
}

/// The first match of two lists in a row is that of the first list that has one.
pub(crate) proof fn lemma_first_match_add<T>(a: Seq<T>, b: Seq<T>, test: spec_fn(T) -> bool)
    ensures
        first_match(a + b, test) == (if first_match(a, test) is Some {
            first_match(a, test)
        } else {
            first_match(b, test)
        }),
{
    Seq::filter_distributes_over_add(a, b, test);
    let fa = a.filter(test);
    let fb = b.filter(test);
    if fa.len() == 0 {
        assert(fa + fb =~= fb);
    } else {
        assert((fa + fb)[0] == fa[0]);
    }
}

/// Past items that fail the test, the next one is the first match or is passed over too.
pub(crate) proof fn lemma_first_match_at<T>(items: Seq<T>, test: spec_fn(T) -> bool, i: int)
    requires
        0 <= i < items.len(),
        first_match(items.take(i), test) is None,
    ensures
        test(items[i]) ==> first_match(items, test) == Some(items[i]),
        !test(items[i]) ==> first_match(items.take(i + 1), test) is None,
{
    let front = items.take(i);
    let one = seq![items[i]];
    let back = items.skip(i + 1);
    lemma_filter_one(items[i], test);
    assert(items.take(i + 1) =~= front + one);
    lemma_first_match_add(front, one, test);
    assert(items =~= front + one + back) by {
        assert forall|k: int| 0 <= k < items.len() implies items[k] == (front + one + back)[k] by {
            if k > i {
                assert(back[k - i - 1] == items[k]);
            }
        }
    }
    lemma_first_match_add(front + one, back, test);
}

/// Concatenating one list more appends it.
pub(crate) proof fn lemma_flatten_take<T>(parts: Seq<Seq<T>>, i: int)
    requires
        0 <= i < parts.len(),
    ensures
        parts.take(i + 1).flatten() == parts.take(i).flatten() + parts[i],
{
    assert(parts.take(i + 1) =~= parts.take(i).push(parts[i]));
    parts.take(i).lemma_flatten_push(parts[i]);
}

/// Nothing concatenated is nothing.
pub(crate) proof fn lemma_flatten_none<T>(parts: Seq<Seq<T>>)
    ensures
        parts.take(0).flatten() == Seq::<T>::empty(),
{
    assert(parts.take(0).len() == 0);
}

/// All parts concatenated are the whole.
pub(crate) proof fn lemma_flatten_all<T>(parts: Seq<Seq<T>>)
    ensures
        parts.take(parts.len() as int).flatten() == parts.flatten(),
{
    assert(parts.take(parts.len() as int) =~= parts);
}

/// What is in the concatenation is in one of the parts.
pub(crate) proof fn lemma_flatten_member<T>(parts: Seq<Seq<T>>, k: int)
    requires
        0 <= k < parts.flatten().len(),
    ensures
        exists|p: int, q: int|
            0 <= p < parts.len() && 0 <= q < parts[p].len() && #[trigger] parts[p][q]
                == parts.flatten()[k],
    decreases parts.len(),
{
    let head = parts[0];
    let rest = parts.drop_first();
    assert(parts.flatten() == head + rest.flatten());
    if k < head.len() {
        assert(parts[0][k] == parts.flatten()[k]);
    } else {
        lemma_flatten_member(rest, k - head.len());
        let (p, q) = choose|p: int, q: int|
            0 <= p < rest.len() && 0 <= q < rest[p].len() && #[trigger] rest[p][q]
                == rest.flatten()[k - head.len()];
        assert(parts[p + 1][q] == rest[p][q]);
    }
}

/// Filtering keeps as many of an item as there are, or none.
pub(crate) proof fn lemma_filter_count<T>(items: Seq<T>, test: spec_fn(T) -> bool, item: T)
    ensures
        items.filter(test).to_multiset().count(item) == (if test(item) {
            items.to_multiset().count(item)
        } else {
            0
        }),
    decreases items.len(),
{
    broadcast use vstd::seq_lib::group_to_multiset_ensures;

    reveal(Seq::filter);
    if items.len() > 0 {
        let front = items.drop_last();
        lemma_filter_count(front, test, item);
        assert(items =~= front.push(items.last()));
    }
}

/// A concatenation in which one part alone holds an item holds it as often as that part.
pub(crate) proof fn lemma_flatten_count<T>(parts: Seq<Seq<T>>, k: int, item: T)
    requires
        forall|p: int|
            0 <= p < parts.len() && p != k ==> (#[trigger] parts[p]).to_multiset().count(item)
                == 0,
    ensures
        parts.flatten().to_multiset().count(item) == (if 0 <= k < parts.len() {
            parts[k].to_multiset().count(item)
        } else {
            0
        }),
    decreases parts.len(),
{
    broadcast use vstd::seq_lib::group_to_multiset_ensures;

    if parts.len() > 0 {
        let rest = parts.drop_first();
        assert forall|p: int| 0 <= p < rest.len() && p != k - 1 implies (
        #[trigger] rest[p]).to_multiset().count(item) == 0 by {
            assert(rest[p] == parts[p + 1]);
        }
        lemma_flatten_count(rest, k - 1, item);
        vstd::seq_lib::lemma_multiset_commutative(parts[0], rest.flatten());
        assert(parts.flatten() == parts[0] + rest.flatten());
        if k == 0 {
        } else if 0 < k < parts.len() {
            assert(rest[k - 1] == parts[k]);
        }
    }
}

/// Sorting items into one part per key, in the order of the keys, is a permutation.
pub(crate) proof fn lemma_partition_permutes<T>(
    items: Seq<T>,
    parts: Seq<Seq<T>>,
    key: spec_fn(T) -> int,
    test: spec_fn(int) -> spec_fn(T) -> bool,
)
    requires
        forall|i: int| 0 <= i < items.len() ==> 0 <= key(#[trigger] items[i]) < parts.len(),
        forall|p: int, item: T| #[trigger] test(p)(item) == (key(item) == p),
        forall|p: int| 0 <= p < parts.len() ==> #[trigger] parts[p] == items.filter(test(p)),
    ensures
        parts.flatten().to_multiset() == items.to_multiset(),
{
    broadcast use vstd::seq_lib::group_to_multiset_ensures;

    assert forall|item: T|
        parts.flatten().to_multiset().count(item) == items.to_multiset().count(item) by {
        assert forall|p: int| 0 <= p < parts.len() && p != key(item) implies (
        #[trigger] parts[p]).to_multiset().count(item) == 0 by {
            lemma_filter_count(items, test(p), item);
        }
        lemma_flatten_count(parts, key(item), item);
        if 0 <= key(item) < parts.len() {
            lemma_filter_count(items, test(key(item)), item);
            assert(parts[key(item)] == items.filter(test(key(item))));
        } else if items.to_multiset().count(item) > 0 {
            assert(items.contains(item));
        }
    }
    assert(parts.flatten().to_multiset() =~= items.to_multiset());
}

/// Reading two lists in a row reads the one, then the other.
pub(crate) proof fn lemma_filter_map_add<T, U>(
    a: Seq<T>,
    b: Seq<T>,
    reading: spec_fn(T) -> Option<U>,
)
    ensures
        (a + b).filter_map(reading) == a.filter_map(reading) + b.filter_map(reading),
    decreases b.len(),
{
    if b.len() == 0 {
        assert(a + b =~= a);
        assert(a.filter_map(reading) + b.filter_map(reading) =~= a.filter_map(reading));
    } else {
        lemma_filter_map_add(a, b.drop_last(), reading);
        assert((a + b).drop_last() =~= a + b.drop_last());
        assert((a + b).last() == b.last());
        assert((a + b).filter_map(reading) =~= a.filter_map(reading) + b.filter_map(reading));
    }
}

/// What a reading finds in an item, it finds in the list.
pub(crate) proof fn lemma_filter_map_has<T, U>(
    items: Seq<T>,
    reading: spec_fn(T) -> Option<U>,
    item: T,
    found: U,
)
    requires
        items.contains(item),
        reading(item) == Some(found),
    ensures
        items.filter_map(reading).contains(found),
    decreases items.len(),
{
    let front = items.drop_last();
    let all = items.filter_map(reading);
    if items.last() == item {
        assert(all.last() == found);
    } else {
        let k = choose|k: int| 0 <= k < items.len() && items[k] == item;
        assert(front[k] == item);
        lemma_filter_map_has(front, reading, item, found);
        let j = choose|j: int|
            0 <= j < front.filter_map(reading).len() && front.filter_map(reading)[j] == found;
        assert(all[j] == found);
    }
}

/// A test that all items pass drops none.
pub(crate) proof fn lemma_filter_all<T>(items: Seq<T>, test: spec_fn(T) -> bool)
    requires
        forall|i: int| 0 <= i < items.len() ==> test(#[trigger] items[i]),
    ensures
        items.filter(test) == items,
    decreases items.len(),
{
    reveal(Seq::filter);
    if items.len() > 0 {
        let front = items.drop_last();
        assert forall|i: int| 0 <= i < front.len() implies test(#[trigger] front[i]) by {
            assert(front[i] == items[i]);
        }
        lemma_filter_all(front, test);
        assert(items =~= front.push(items.last()));
    }
}

/// A test that no item passes drops all.
pub(crate) proof fn lemma_filter_nothing<T>(items: Seq<T>, test: spec_fn(T) -> bool)
    requires
        forall|i: int| 0 <= i < items.len() ==> !test(#[trigger] items[i]),
    ensures
        items.filter(test) == Seq::<T>::empty(),
    decreases items.len(),
{
    reveal(Seq::filter);
    if items.len() > 0 {
        let front = items.drop_last();
        assert forall|i: int| 0 <= i < front.len() implies !test(#[trigger] front[i]) by {
            assert(front[i] == items[i]);
        }
        lemma_filter_nothing(front, test);
    } else {
        assert(items =~= Seq::empty());
    }
}

/// The first match is an item that passes, with none before it that does; there is none only
/// where no item passes.
pub proof fn law_first_match_is_first<T>(items: Seq<T>, test: spec_fn(T) -> bool)
    ensures
        first_match(items, test) matches Some(item) ==> exists|i: int|
            #![trigger items[i]]
            0 <= i < items.len() && items[i] == item && test(item) && forall|j: int|
                0 <= j < i ==> !test(#[trigger] items[j]),
        first_match(items, test) is None ==> forall|j: int|
            0 <= j < items.len() ==> !test(#[trigger] items[j]),
    decreases items.len(),
{
    reveal(Seq::filter);
    if items.len() > 0 {
        let front = items.drop_last();
        let last = items.last();
        law_first_match_is_first(front, test);
        lemma_filter_one(last, test);
        assert(items =~= front + seq![last]);
        lemma_first_match_add(front, seq![last], test);
        assert forall|j: int| 0 <= j < front.len() implies #[trigger] front[j] == items[j] by {}
        if first_match(front, test) is Some {
            let i = choose|i: int|
                #![trigger front[i]]
                0 <= i < front.len() && front[i] == first_match(front, test)->0 && test(front[i])
                    && forall|j: int| 0 <= j < i ==> !test(#[trigger] front[j]);
            assert(items[i] == front[i]);
            assert forall|j: int| 0 <= j < i implies !test(#[trigger] items[j]) by {
                assert(!test(front[j]));
            }
        } else {
            assert forall|j: int| 0 <= j < front.len() implies !test(#[trigger] items[j]) by {
                assert(!test(front[j]));
            }
            assert(items[items.len() - 1] == last);
        }
    }
}

} // verus!
