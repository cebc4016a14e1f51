//! What sorting and grouping do, whatever is sorted or grouped.
use crate::join::{chain, with_key};
use crate::order::{distinct_sorted, distinct_sorted_holds, insert_item, stable_sorted, Key};
use vstd::prelude::*;

verus! {

/// Two ways to choose that agree on every item choose the same.
pub proof fn choices_agree<T>(items: Seq<T>, p: spec_fn(T) -> bool, q: spec_fn(T) -> bool)
    requires
        forall|i: int| 0 <= i < items.len() ==> p(#[trigger] items[i]) == q(items[i]),
    ensures
        items.filter(p) == items.filter(q),
    decreases items.len(),
{
    reveal(Seq::filter);
    if items.len() > 0 {
        let rest = items.drop_last();
        assert forall|i: int| 0 <= i < rest.len() implies p(#[trigger] rest[i]) == q(rest[i]) by {
            assert(rest[i] == items[i]);
        }
        choices_agree(rest, p, q);
        assert(items[items.len() - 1] == items.last());
    }
}

/// The items of a key are those that are chosen by it.
pub proof fn keyed_items<T, M>(items: Seq<T>, key: spec_fn(T) -> M, k: M, p: spec_fn(T) -> bool)
    requires
        forall|i: int| 0 <= i < items.len() ==> p(#[trigger] items[i]) == (key(items[i]) == k),
    ensures
        with_key(items, key, k) == items.filter(p),
{
    choices_agree(items, |x: T| key(x) == k, p);
}

/// Counting what holds of the items of a list with one more item.
pub proof fn counting_goes_on<T>(items: Seq<T>, x: T, p: spec_fn(T) -> bool)
    ensures
        items.push(x).filter(p).len() == items.filter(p).len() + if p(x) {
            1int
        } else {
            0int
        },
{
    reveal(Seq::filter);
    assert(items.push(x).drop_last() == items);
}

proof fn insertion_counts<T, K: Key>(
    sorted: Seq<T>,
    key: spec_fn(T) -> K::Model,
    x: T,
    p: spec_fn(T) -> bool,
)
    ensures
        insert_item::<T, K>(sorted, key, x).len() == sorted.len() + 1,
        insert_item::<T, K>(sorted, key, x).filter(p).len() == sorted.push(x).filter(p).len(),
    decreases sorted.len(),
{
    counting_goes_on(sorted, x, p);
    if sorted.len() > 0 && K::precedes(key(x), key(sorted.last())) {
        let rest = sorted.drop_last();
        insertion_counts::<T, K>(rest, key, x, p);
        counting_goes_on(rest, x, p);
        counting_goes_on(rest, sorted.last(), p);
        counting_goes_on(insert_item::<T, K>(rest, key, x), sorted.last(), p);
        assert(rest.push(sorted.last()) == sorted);
    }
}

/// Sorting loses no item, adds none and repeats none: whatever is counted among the items, there
/// are as many of it as before.
pub proof fn sorting_counts_alike<T, K: Key>(
    items: Seq<T>,
    key: spec_fn(T) -> K::Model,
    p: spec_fn(T) -> bool,
)
    ensures
        stable_sorted::<T, K>(items, key).len() == items.len(),
        stable_sorted::<T, K>(items, key).filter(p).len() == items.filter(p).len(),
    decreases items.len(),
{
    reveal(Seq::filter);
    if items.len() > 0 {
        let rest = items.drop_last();
        sorting_counts_alike::<T, K>(rest, key, p);
        let sorted = stable_sorted::<T, K>(rest, key);
        insertion_counts::<T, K>(sorted, key, items.last(), p);
        counting_goes_on(sorted, items.last(), p);
        counting_goes_on(rest, items.last(), p);
        assert(rest.push(items.last()) == items);
    }
}

/// No item stands before one whose key is smaller.
pub open spec fn in_sequence<T, K: Key>(items: Seq<T>, key: spec_fn(T) -> K::Model) -> bool {
    forall|i: int, j: int|
        0 <= i < j < items.len() ==> !K::precedes(key(#[trigger] items[j]), key(#[trigger] items[i]))
}

proof fn insertion_ascends<T, K: Key>(sorted: Seq<T>, key: spec_fn(T) -> K::Model, x: T)
    requires
        in_sequence::<T, K>(sorted, key),
    ensures
        in_sequence::<T, K>(insert_item::<T, K>(sorted, key, x), key),
        forall|i: int|
            0 <= i < insert_item::<T, K>(sorted, key, x).len() ==> #[trigger] insert_item::<T, K>(
                sorted,
                key,
                x,
            )[i] == x || sorted.contains(insert_item::<T, K>(sorted, key, x)[i]),
        insert_item::<T, K>(sorted, key, x).len() == sorted.len() + 1,
    decreases sorted.len(),
{
    let out = insert_item::<T, K>(sorted, key, x);
    if sorted.len() > 0 && K::precedes(key(x), key(sorted.last())) {
        let rest = sorted.drop_last();
        let last = sorted.last();
        let inner = insert_item::<T, K>(rest, key, x);
        assert(in_sequence::<T, K>(rest, key)) by {
            assert forall|i: int, j: int| 0 <= i < j < rest.len() implies !K::precedes(
                key(#[trigger] rest[j]),
                key(#[trigger] rest[i]),
            ) by {
                assert(rest[i] == sorted[i] && rest[j] == sorted[j]);
            }
        }
        insertion_ascends::<T, K>(rest, key, x);
        assert forall|i: int| 0 <= i < out.len() implies #[trigger] out[i] == x || sorted.contains(
            out[i],
        ) by {
            if i < inner.len() {
                assert(out[i] == inner[i]);
                if inner[i] != x {
                    let j = choose|j: int| 0 <= j < rest.len() && rest[j] == inner[i];
                    assert(sorted[j] == inner[i]);
                }
            } else {
                assert(sorted[sorted.len() - 1] == out[i]);
            }
        }
        assert forall|i: int, j: int| 0 <= i < j < out.len() implies !K::precedes(
            key(#[trigger] out[j]),
            key(#[trigger] out[i]),
        ) by {
            assert(out[i] == inner[i]);
            if j < inner.len() {
                assert(out[j] == inner[j]);
            } else if out[i] == x {
                K::strict_order(key(x), key(last), key(x));
            } else {
                let n = choose|n: int| 0 <= n < rest.len() && rest[n] == inner[i];
                assert(sorted[n] == out[i] && sorted[sorted.len() - 1] == last);
            }
        }
    } else {
        assert forall|i: int, j: int| 0 <= i < j < out.len() implies !K::precedes(
            key(#[trigger] out[j]),
            key(#[trigger] out[i]),
        ) by {
            if j == sorted.len() {
                let last = sorted.last();
                K::strict_order(key(x), key(out[i]), key(last));
                K::strict_order(key(last), key(out[i]), key(x));
                K::strict_order(key(out[i]), key(last), key(x));
                assert(sorted[sorted.len() - 1] == last);
            }
        }
        assert forall|i: int| 0 <= i < out.len() implies #[trigger] out[i] == x || sorted.contains(
            out[i],
        ) by {
            if i < sorted.len() {
                assert(sorted[i] == out[i]);
            }
        }
    }
}

/// What is sorted is in sequence.
pub proof fn sorting_ascends<T, K: Key>(items: Seq<T>, key: spec_fn(T) -> K::Model)
    ensures
        in_sequence::<T, K>(stable_sorted::<T, K>(items, key), key),
    decreases items.len(),
{
    if items.len() > 0 {
        sorting_ascends::<T, K>(items.drop_last(), key);
        insertion_ascends::<T, K>(
            stable_sorted::<T, K>(items.drop_last(), key),
            key,
            items.last(),
        );
    }
}

/// The weights of the items of a list, added up.
pub open spec fn weight<T>(items: Seq<T>, w: spec_fn(T) -> int) -> int
    decreases items.len(),
{
    if items.len() == 0 {
        0
    } else {
        weight(items.drop_last(), w) + w(items.last())
    }
}

/// Adding up the weights of the items of a key does not change with items of other keys.
proof fn keyed_goes_on<T, M>(items: Seq<T>, x: T, key: spec_fn(T) -> M, k: M)
    ensures
        with_key(items.push(x), key, k) == if key(x) == k {
            with_key(items, key, k).push(x)
        } else {
            with_key(items, key, k)
        },
{
    reveal(Seq::filter);
    assert(items.push(x).drop_last() == items);
}

proof fn groups_go_on<T, M>(
    items: Seq<T>,
    x: T,
    key: spec_fn(T) -> M,
    names: Seq<M>,
    w: spec_fn(T) -> int,
)
    requires
        names.no_duplicates(),
    ensures
        weight(names, |k: M| weight(with_key(items.push(x), key, k), w)) == weight(
            names,
            |k: M| weight(with_key(items, key, k), w),
        ) + if names.contains(key(x)) {
            w(x)
        } else {
            0
        },
    decreases names.len(),
{
    let before = |k: M| weight(with_key(items, key, k), w);
    let after = |k: M| weight(with_key(items.push(x), key, k), w);
    if names.len() > 0 {
        let rest = names.drop_last();
        let last = names.last();
        groups_go_on(items, x, key, rest, w);
        keyed_goes_on(items, x, key, last);
        assert(with_key(items, key, last).push(x).drop_last() == with_key(items, key, last));
        if key(x) == last {
            assert(names[names.len() - 1] == key(x));
            assert(names.contains(key(x)));
            if rest.contains(key(x)) {
                let i = choose|i: int| 0 <= i < rest.len() && rest[i] == key(x);
                assert(names[i] == names[names.len() - 1]);
            }
        } else {
            assert(rest.contains(key(x)) == names.contains(key(x))) by {
                if rest.contains(key(x)) {
                    let i = choose|i: int| 0 <= i < rest.len() && rest[i] == key(x);
                    assert(names[i] == key(x));
                }
                if names.contains(key(x)) {
                    let i = choose|i: int| 0 <= i < names.len() && names[i] == key(x);
                    assert(rest[i] == key(x));
                }
            }
        }
    }
}

/// Grouping loses nothing and counts nothing twice: what is weighed group by group adds up to what
/// all items weigh.
pub proof fn groups_weigh_alike<T, M>(
    items: Seq<T>,
    key: spec_fn(T) -> M,
    names: Seq<M>,
    w: spec_fn(T) -> int,
)
    requires
        names.no_duplicates(),
        forall|i: int| 0 <= i < items.len() ==> names.contains(key(#[trigger] items[i])),
    ensures
        weight(names, |k: M| weight(with_key(items, key, k), w)) == weight(items, w),
    decreases items.len(),
{
    if items.len() == 0 {
        empty_groups(key, names, w);
        assert(items == Seq::<T>::empty());
    } else {
        let rest = items.drop_last();
        assert forall|i: int| 0 <= i < rest.len() implies names.contains(
            key(#[trigger] rest[i]),
        ) by {
            assert(rest[i] == items[i]);
        }
        groups_weigh_alike(rest, key, names, w);
        assert(rest.push(items.last()) == items);
        assert(names.contains(key(items[items.len() - 1])));
        groups_go_on(rest, items.last(), key, names, w);
    }
}

proof fn empty_groups<T, M>(key: spec_fn(T) -> M, names: Seq<M>, w: spec_fn(T) -> int)
    ensures
        weight(names, |k: M| weight(with_key(Seq::<T>::empty(), key, k), w)) == 0,
    decreases names.len(),
{
    reveal(Seq::filter);
    if names.len() > 0 {
        empty_groups(key, names.drop_last(), w);
    }
}

/// The groups of all keys that occur weigh together what all items weigh.
pub proof fn sorted_groups_weigh_alike<T, K: Key>(
    items: Seq<T>,
    key: spec_fn(T) -> K::Model,
    w: spec_fn(T) -> int,
)
    ensures
        weight(
            distinct_sorted::<K>(items.map_values(key)),
            |k: K::Model| weight(with_key(items, key, k), w),
        ) == weight(items, w),
{
    let keys = items.map_values(key);
    crate::join::sorted_keys_are_distinct::<K>(keys);
    distinct_sorted_holds::<K>(keys);
    let names = distinct_sorted::<K>(keys);
    assert forall|i: int| 0 <= i < items.len() implies names.contains(key(#[trigger] items[i])) by {
        assert(keys[i] == key(items[i]));
        assert(keys.contains(keys[i]));
    }
    groups_weigh_alike(items, key, names, w);
}

/// Items of equal weight weigh alike.
pub proof fn weights_agree<T>(items: Seq<T>, v: spec_fn(T) -> int, w: spec_fn(T) -> int)
    requires
        forall|i: int| 0 <= i < items.len() ==> v(#[trigger] items[i]) == w(items[i]),
    ensures
        weight(items, v) == weight(items, w),
    decreases items.len(),
{
    if items.len() > 0 {
        let rest = items.drop_last();
        assert forall|i: int| 0 <= i < rest.len() implies v(#[trigger] rest[i]) == w(rest[i]) by {
            assert(rest[i] == items[i]);
        }
        weights_agree(rest, v, w);
        assert(items[items.len() - 1] == items.last());
    }
}

/// Items that weigh one each weigh what they count.
pub proof fn ones_count<T>(items: Seq<T>)
    ensures
        weight(items, |x: T| 1) == items.len(),
    decreases items.len(),
{
    if items.len() > 0 {
        ones_count(items.drop_last());
    }
}

/// Choosing among what was chosen is choosing by both.
pub proof fn choosing_twice<T>(
    items: Seq<T>,
    p: spec_fn(T) -> bool,
    q: spec_fn(T) -> bool,
    both: spec_fn(T) -> bool,
)
    requires
        forall|i: int|
            0 <= i < items.len() ==> both(#[trigger] items[i]) == (p(items[i]) && q(items[i])),
    ensures
        items.filter(p).filter(q) == items.filter(both),
    decreases items.len(),
{
    reveal(Seq::filter);
    if items.len() > 0 {
        let rest = items.drop_last();
        assert forall|i: int| 0 <= i < rest.len() implies both(#[trigger] rest[i]) == (p(rest[i])
            && q(rest[i])) by {
            assert(rest[i] == items[i]);
        }
        choosing_twice(rest, p, q, both);
        assert(items[items.len() - 1] == items.last());
        if p(items.last()) {
            let kept = rest.filter(p);
            assert(items.filter(p) == kept.push(items.last()));
            assert(kept.push(items.last()).drop_last() == kept);
        }
    }
}

/// Where an item of a chain of lists comes from.
pub proof fn chained_item<U>(parts: Seq<Seq<U>>, i: int) -> (r: (int, int))
    requires
        0 <= i < chain(parts).len(),
    ensures
        0 <= r.0 < parts.len(),
        0 <= r.1 < parts[r.0].len(),
        chain(parts)[i] == parts[r.0][r.1],
    decreases parts.len(),
{
    let rest = chain(parts.drop_last());
    if i < rest.len() {
        let r = chained_item(parts.drop_last(), i);
        assert(parts.drop_last()[r.0] == parts[r.0]);
        r
    } else {
        (parts.len() - 1, i - rest.len())
    }
}

/// An item of a part stands in the chain.
pub proof fn parts_are_chained<U>(parts: Seq<Seq<U>>, g: int, j: int)
    requires
        0 <= g < parts.len(),
        0 <= j < parts[g].len(),
    ensures
        chain(parts).contains(parts[g][j]),
    decreases parts.len(),
{
    let rest = parts.drop_last();
    let head = chain(rest);
    if g < rest.len() {
        parts_are_chained(rest, g, j);
        let i = choose|i: int| 0 <= i < head.len() && head[i] == rest[g][j];
        assert(chain(parts)[i] == parts[g][j]);
    } else {
        assert(chain(parts)[head.len() + j] == parts[g][j]);
    }
}

} // verus!
