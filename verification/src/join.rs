//! Selecting, grouping and sorting rows by key, and joining two lists of rows on their keys.
use crate::order::{
    distinct_sorted, filter_by_key, group_by_key, group_key, group_keys, group_positions, grouping,
    grouping_keys, has_group, models, positions, positions_hold, sort_positions, stable_order,
    stable_order_sorts, stable_sorted, Key,
};
use vstd::prelude::*;

verus! {

/// The values behind references.
pub open spec fn derefs<T>(refs: Seq<&T>) -> Seq<T> {
    refs.map_values(|r: &T| *r)
}

/// The items whose key is `k`.
pub open spec fn with_key<T, M>(items: Seq<T>, key: spec_fn(T) -> M, k: M) -> Seq<T> {
    items.filter(|x: T| key(x) == k)
}

/// An item selected by key is one of the items, and has that key.
pub proof fn with_key_holds<T, M>(items: Seq<T>, key: spec_fn(T) -> M, k: M, i: int)
    requires
        0 <= i < with_key(items, key, k).len(),
    ensures
        key(with_key(items, key, k)[i]) == k,
        items.contains(with_key(items, key, k)[i]),
{
    let p = |x: T| key(x) == k;
    items.lemma_filter_pred(p, i);
    assert(items.filter(p).contains(items.filter(p)[i]));
    items.lemma_filter_contains_rev(p, items.filter(p)[i]);
}

/// Selecting by a key of the views selects the views.
pub proof fn with_key_through<T, U, M>(
    items: Seq<T>,
    view: spec_fn(T) -> U,
    key: spec_fn(U) -> M,
    k: M,
)
    ensures
        with_key(items, |t: T| key(view(t)), k).map_values(view) == with_key(
            items.map_values(view),
            key,
            k,
        ),
    decreases items.len(),
{
    reveal(Seq::filter);
    let through = |t: T| key(view(t));
    if items.len() > 0 {
        with_key_through(items.drop_last(), view, key, k);
        assert(items.map_values(view).drop_last() == items.drop_last().map_values(view));
        let rest = with_key(items.drop_last(), through, k);
        assert(rest.push(items.last()).map_values(view) == rest.map_values(view).push(
            view(items.last()),
        ));
    } else {
        assert(with_key(items, through, k).map_values(view) == with_key(
            items.map_values(view),
            key,
            k,
        ));
    }
}

/// The items that `flags` marks, one flag for each item.
pub fn keep<'a, T>(items: &'a [T], flags: &Vec<bool>, Ghost(p): Ghost<spec_fn(T) -> bool>) -> (out:
    Vec<&'a T>)
    requires
        flags@.len() == items@.len(),
        forall|i: int| 0 <= i < items@.len() ==> #[trigger] flags@[i] == p(items@[i]),
    ensures
        derefs(out@) == items@.filter(p),
{
    let mut out: Vec<&'a T> = Vec::new();
    let mut i: usize = 0;
    proof {
        reveal(Seq::filter);
        assert(items@.take(0) == Seq::<T>::empty());
        assert(derefs(out@) == items@.take(0).filter(p));
    }
    while i < items.len()
        invariant
            i <= items@.len(),
            flags@.len() == items@.len(),
            forall|j: int| 0 <= j < items@.len() ==> #[trigger] flags@[j] == p(items@[j]),
            derefs(out@) == items@.take(i as int).filter(p),
        decreases items.len() - i,
    {
        proof {
            reveal(Seq::filter);
            assert(items@.take(i + 1).drop_last() == items@.take(i as int));
            assert(items@.take(i + 1).last() == items@[i as int]);
        }
        if flags[i] {
            let ghost was = out@;
            out.push(&items[i]);
            assert(derefs(out@) == derefs(was).push(items@[i as int]));
        }
        i += 1;
    }
    assert(items@.take(i as int) == items@);
    out
}

/// The rows of each key that occurs, in the order of the keys; the rows of one key keep their
/// order.
pub fn group_rows<'a, T, K: Key>(
    rows: &Vec<&'a T>,
    keys: &Vec<K>,
    Ghost(key): Ghost<spec_fn(T) -> K::Model>,
) -> (out: Vec<Vec<&'a T>>)
    requires
        models(keys@) == derefs(rows@).map_values(key),
    ensures
        out@.len() == distinct_sorted::<K>(derefs(rows@).map_values(key)).len(),
        forall|g: int|
            0 <= g < out@.len() ==> derefs((#[trigger] out@[g])@) == with_key(
                derefs(rows@),
                key,
                distinct_sorted::<K>(derefs(rows@).map_values(key))[g],
            ) && out@[g]@.len() > 0,
{
    let groups = group_by_key(keys);
    let ghost m = models(keys@);
    let ghost items = derefs(rows@);
    proof {
        grouping_keys::<K>(m, groups@);
        assert(m.len() == rows@.len());
    }
    let mut out: Vec<Vec<&'a T>> = Vec::new();
    let mut g: usize = 0;
    while g < groups.len()
        invariant
            g <= groups@.len(),
            m == items.map_values(key),
            items == derefs(rows@),
            grouping::<K>(m, groups@),
            group_keys(m, groups@) == distinct_sorted::<K>(m),
            out@.len() == g,
            forall|h: int|
                0 <= h < g ==> derefs((#[trigger] out@[h])@) == with_key(
                    items,
                    key,
                    distinct_sorted::<K>(m)[h],
                ) && out@[h]@.len() > 0,
        decreases groups.len() - g,
    {
        let group = &groups[g];
        let ghost k = group_key(m, *group);
        let ghost ps = group_positions(*group);
        proof {
            assert(group_keys(m, groups@)[g as int] == k);
            positions_hold(m, k);
            filter_by_key(items, key, k);
        }
        let mut members: Vec<&'a T> = Vec::new();
        let mut i: usize = 0;
        while i < group.len()
            invariant
                i <= group@.len(),
                items == derefs(rows@),
                ps == group_positions(*group),
                forall|j: int| 0 <= j < ps.len() ==> 0 <= #[trigger] ps[j] < items.len(),
                derefs(members@) == ps.take(i as int).map_values(|x: int| items[x]),
            decreases group.len() - i,
        {
            assert(ps[i as int] == group@[i as int]);
            let row: &'a T = rows[group[i]];
            let ghost was = members@;
            members.push(row);
            assert(derefs(members@) == derefs(was).push(items[ps[i as int]]));
            assert(ps.take(i + 1).map_values(|x: int| items[x]) == ps.take(i as int).map_values(
                |x: int| items[x],
            ).push(items[ps[i as int]]));
            i += 1;
        }
        assert(ps.take(i as int) == ps);
        assert(derefs(members@).len() == group@.len());
        out.push(members);
        g += 1;
    }
    out
}

/// The items at the positions `order`.
pub open spec fn in_order<T>(items: Seq<T>, order: Seq<usize>) -> Seq<T> {
    order.map_values(|i: usize| items[i as int])
}

pub open spec fn wrapped<T>(items: Seq<T>) -> Seq<Option<T>> {
    items.map_values(|t: T| Some(t))
}

/// Each item in a slot of its own, from which it can be taken.
pub fn slots<T>(items: Vec<T>) -> (out: Vec<Option<T>>)
    ensures
        out@ == wrapped(items@),
{
    let mut out: Vec<Option<T>> = Vec::new();
    let ghost all = items@;
    for item in it: items
        invariant
            it.seq() == all,
            out@ == wrapped(all.take(it.index() as int)),
    {
        out.push(Some(item));
        assert(wrapped(all.take(it.index() + 1)) == wrapped(all.take(it.index() as int)).push(
            Some(item),
        ));
    }
    assert(all.take(all.len() as int) == all);
    out
}

/// Moves the items into the order given by distinct positions.
pub fn arrange<T>(items: Vec<T>, order: &Vec<usize>) -> (out: Vec<T>)
    requires
        forall|i: int| 0 <= i < order@.len() ==> #[trigger] order@[i] < items@.len(),
        order@.no_duplicates(),
    ensures
        out@ == in_order(items@, order@),
{
    let ghost all = items@;
    let mut from = slots(items);
    let mut out: Vec<T> = Vec::new();
    let mut i: usize = 0;
    while i < order.len()
        invariant
            i <= order@.len(),
            from@.len() == all.len(),
            forall|j: int| 0 <= j < order@.len() ==> #[trigger] order@[j] < all.len(),
            order@.no_duplicates(),
            forall|j: int|
                i <= j < order@.len() ==> from@[#[trigger] order@[j] as int] == Some(
                    all[order@[j] as int],
                ),
            out@ == in_order(all, order@.take(i as int)),
        decreases order.len() - i,
    {
        let at: usize = order[i];
        let item = from[at].take().unwrap();
        out.push(item);
        assert(in_order(all, order@.take(i + 1)) == in_order(all, order@.take(i as int)).push(
            item,
        ));
        i += 1;
    }
    assert(order@.take(i as int) == order@);
    out
}

/// A stable order repeats no position.
pub proof fn stable_order_is_distinct<K: Key>(keys: Seq<K::Model>, order: Seq<usize>)
    requires
        stable_order::<K>(keys, order),
    ensures
        order.no_duplicates(),
{
    assert forall|i: int, j: int|
        0 <= i < order.len() && 0 <= j < order.len() && i != j implies order[i] != order[j] by {
        let a = if i < j { i } else { j };
        let b = if i < j { j } else { i };
        assert(crate::order::sorts_first::<K>(keys, order[a] as int, order[b] as int));
        K::strict_order(keys[order[a] as int], keys[order[b] as int], keys[order[a] as int]);
    }
}

/// Sorts `items` by `keys`, one for each item; items with equal keys keep their order.
pub fn sort_by_keys<T, K: Key>(
    items: Vec<T>,
    keys: &Vec<K>,
    Ghost(key): Ghost<spec_fn(T) -> K::Model>,
) -> (out: Vec<T>)
    requires
        models(keys@) == items@.map_values(key),
    ensures
        out@ == stable_sorted::<T, K>(items@, key),
        out@.len() == items@.len(),
{
    let order = sort_positions(keys);
    proof {
        stable_order_is_distinct::<K>(models(keys@), order@);
        assert(items@.len() == items.len());
        stable_order_sorts::<T, K>(items@, key, order@);
    }
    arrange(items, &order)
}

/// The last position at which `keys` holds `k`.
pub open spec fn last_position<M>(keys: Seq<M>, k: M) -> Option<usize>
    decreases keys.len(),
{
    if keys.len() == 0 {
        None
    } else if keys.last() == k {
        Some((keys.len() - 1) as usize)
    } else {
        last_position(keys.drop_last(), k)
    }
}

proof fn last_position_found<M>(keys: Seq<M>, k: M, at: int)
    requires
        0 <= at < keys.len() <= usize::MAX,
        keys[at] == k,
        forall|i: int| at < i < keys.len() ==> keys[i] != k,
    ensures
        last_position(keys, k) == Some(at as usize),
    decreases keys.len(),
{
    if at < keys.len() - 1 {
        last_position_found(keys.drop_last(), k, at);
    }
}

proof fn last_position_absent<M>(keys: Seq<M>, k: M)
    requires
        forall|i: int| 0 <= i < keys.len() ==> keys[i] != k,
    ensures
        last_position(keys, k) is None,
    decreases keys.len(),
{
    if keys.len() > 0 {
        last_position_absent(keys.drop_last(), k);
    }
}

/// One row of a join: the rows of each side that carry the row's key.
#[derive(Clone, Copy, Debug, PartialEq, Eq, Structural)]
pub struct Matched {
    pub base: Option<usize>,
    pub candidate: Option<usize>,
}

/// The key of a row of a join.
pub open spec fn matched_key<M>(base: Seq<M>, candidate: Seq<M>, row: Matched) -> M {
    match row.base {
        Some(i) => base[i as int],
        None => candidate[row.candidate->0 as int],
    }
}

/// The row of a join names a row on one side at least, and on each side the last one with its key.
pub open spec fn matched<M>(base: Seq<M>, candidate: Seq<M>, row: Matched) -> bool {
    let k = matched_key(base, candidate, row);
    &&& row.base is Some || row.candidate is Some
    &&& row.base == last_position(base, k)
    &&& row.candidate == last_position(candidate, k)
}

/// `rows` joins the two lists of keys in full: one row for each key of either side, in the order
/// of the keys.
pub open spec fn full_join<K: Key>(
    base: Seq<K::Model>,
    candidate: Seq<K::Model>,
    rows: Seq<Matched>,
) -> bool {
    &&& forall|r: int| 0 <= r < rows.len() ==> matched(base, candidate, #[trigger] rows[r])
    &&& forall|r: int, s: int|
        0 <= r < s < rows.len() ==> K::precedes(
            matched_key(base, candidate, #[trigger] rows[r]),
            matched_key(base, candidate, #[trigger] rows[s]),
        )
    &&& forall|i: int|
        0 <= i < base.len() ==> has_row(base, candidate, rows, #[trigger] base[i])
    &&& forall|i: int|
        0 <= i < candidate.len() ==> has_row(base, candidate, rows, #[trigger] candidate[i])
}

pub open spec fn has_row<M>(base: Seq<M>, candidate: Seq<M>, rows: Seq<Matched>, k: M) -> bool {
    exists|r: int|
        0 <= r < rows.len() && matched_key(base, candidate, #[trigger] rows[r]) == k
}

/// Positions that a row of a join names lie inside their lists.
pub proof fn last_position_in_range<M>(keys: Seq<M>, k: M)
    requires
        keys.len() <= usize::MAX,
    ensures
        last_position(keys, k) matches Some(at) ==> at < keys.len() && keys[at as int] == k,
        last_position(keys, k) is None ==> forall|i: int| 0 <= i < keys.len() ==> keys[i] != k,
    decreases keys.len(),
{
    if keys.len() > 0 {
        last_position_in_range(keys.drop_last(), k);
        if keys.last() != k && last_position(keys.drop_last(), k) is None {
            assert forall|i: int| 0 <= i < keys.len() implies keys[i] != k by {
                if i < keys.len() - 1 {
                    assert(keys.drop_last()[i] == keys[i]);
                }
            }
        }
    }
}

/// Joins two lists of keys in full.
pub fn full_outer_join<K: Key>(base: Vec<K>, candidate: Vec<K>) -> (rows: Vec<Matched>)
    requires
        base@.len() + candidate@.len() <= usize::MAX,
    ensures
        full_join::<K>(models(base@), models(candidate@), rows@),
        forall|r: int|
            0 <= r < rows@.len() ==> ((#[trigger] rows@[r]).base matches Some(i) ==> i
                < base@.len()) && (rows@[r].candidate matches Some(i) ==> i < candidate@.len()),
{
    let n: usize = base.len();
    let ghost b = models(base@);
    let ghost c = models(candidate@);
    let mut all = base;
    let mut rest = candidate;
    all.append(&mut rest);
    let ghost m = models(all@);
    assert(m == b + c);
    let groups = group_by_key(&all);
    let mut rows: Vec<Matched> = Vec::new();
    let mut g: usize = 0;
    while g < groups.len()
        invariant
            n == b.len(),
            m == b + c,
            m == models(all@),
            b.len() + c.len() <= usize::MAX,
            grouping::<K>(m, groups@),
            g <= groups@.len(),
            rows@.len() == g,
            forall|r: int|
                0 <= r < g ==> matched(b, c, #[trigger] rows@[r]) && matched_key(b, c, rows@[r])
                    == group_key(m, groups@[r]),
        decreases groups.len() - g,
    {
        let group = &groups[g];
        let ghost k = group_key(m, *group);
        let ghost ps = group_positions(*group);
        proof {
            positions_hold(m, k);
            assert(ps == positions(m, k));
        }
        let last: usize = group[group.len() - 1];
        assert(ps[ps.len() - 1] == last);
        let of_candidate: Option<usize> = if last >= n {
            Some(last - n)
        } else {
            None
        };
        let mut i: usize = 0;
        let mut of_base: Option<usize> = None;
        while i < group.len() && group[i] < n
            invariant
                i <= group@.len(),
                ps == group_positions(*group),
                i == 0 ==> of_base is None,
                i > 0 ==> of_base == Some(group@[i - 1]),
                forall|j: int| 0 <= j < i ==> group@[j] < n,
            decreases group.len() - i,
        {
            of_base = Some(group[i]);
            i += 1;
        }
        proof {
            assert(ps.len() == group@.len());
            // On the side of the base.
            if i > 0 {
                let at = group@[i - 1] as int;
                assert(ps[i - 1] == at);
                assert(b[at] == m[at]);
                assert forall|x: int| at < x < b.len() implies b[x] != k by {
                    if b[x] == k {
                        assert(m[x] == k);
                        assert(ps.contains(x));
                        let q = choose|q: int| 0 <= q < ps.len() && ps[q] == x;
                        if q < i - 1 {
                            assert(ps[q] < ps[i - 1]);
                        } else if q >= i {
                            if q > i {
                                assert(ps[i as int] < ps[q]);
                            }
                            assert(group@[i as int] >= n);
                        }
                    }
                }
                last_position_found(b, k, at);
            } else {
                assert forall|x: int| 0 <= x < b.len() implies b[x] != k by {
                    if b[x] == k {
                        assert(m[x] == k);
                        assert(ps.contains(x));
                        let q = choose|q: int| 0 <= q < ps.len() && ps[q] == x;
                        if q > 0 {
                            assert(ps[0] < ps[q]);
                        }
                        assert(group@[0] >= n);
                    }
                }
                last_position_absent(b, k);
            }
            // On the side of the candidate.
            if last >= n {
                let at = last - n;
                assert(m[last as int] == k);
                assert(c[at] == k);
                assert forall|x: int| at < x < c.len() implies c[x] != k by {
                    if c[x] == k {
                        assert(m[x + n] == k);
                        assert(ps.contains(x + n));
                        let q = choose|q: int| 0 <= q < ps.len() && ps[q] == x + n;
                        if q < ps.len() - 1 {
                            assert(ps[q] < ps[ps.len() - 1]);
                        }
                    }
                }
                last_position_found(c, k, at as int);
            } else {
                assert forall|x: int| 0 <= x < c.len() implies c[x] != k by {
                    if c[x] == k {
                        assert(m[x + n] == k);
                        assert(ps.contains(x + n));
                        let q = choose|q: int| 0 <= q < ps.len() && ps[q] == x + n;
                        if q < ps.len() - 1 {
                            assert(ps[q] < ps[ps.len() - 1]);
                        }
                    }
                }
                last_position_absent(c, k);
                if i == 0 {
                    if ps.len() > 1 {
                        assert(ps[0] < ps[ps.len() - 1]);
                    }
                    assert(group@[0] >= n);
                }
            }
        }
        let row = Matched { base: of_base, candidate: of_candidate };
        assert(matched_key(b, c, row) == k);
        rows.push(row);
        g += 1;
    }
    proof {
        assert forall|r: int, s: int| 0 <= r < s < rows@.len() implies K::precedes(
            matched_key(b, c, #[trigger] rows@[r]),
            matched_key(b, c, #[trigger] rows@[s]),
        ) by {
            assert(K::precedes(group_key(m, groups@[r]), group_key(m, groups@[s])));
        }
        assert forall|i: int| 0 <= i < b.len() implies has_row(b, c, rows@, #[trigger] b[i]) by {
            assert(has_group(m, groups@, m[i]));
            let h = choose|h: int|
                0 <= h < groups@.len() && group_key(m, #[trigger] groups@[h]) == m[i];
            assert(matched_key(b, c, rows@[h]) == b[i]);
        }
        assert forall|i: int| 0 <= i < c.len() implies has_row(b, c, rows@, #[trigger] c[i]) by {
            assert(has_group(m, groups@, m[i + n]));
            let h = choose|h: int|
                0 <= h < groups@.len() && group_key(m, #[trigger] groups@[h]) == m[i + n];
            assert(matched_key(b, c, rows@[h]) == c[i]);
        }
        assert forall|r: int| 0 <= r < rows@.len() implies ((#[trigger] rows@[r]).base matches Some(
            i,
        ) ==> i < b.len()) && (rows@[r].candidate matches Some(i) ==> i < c.len()) by {
            let k = matched_key(b, c, rows@[r]);
            last_position_in_range(b, k);
            last_position_in_range(c, k);
        }
        assert(full_join::<K>(b, c, rows@));
    }
    rows
}

/// The last item whose key is `k`.
pub open spec fn last_with<T, M>(items: Seq<T>, key: spec_fn(T) -> M, k: M) -> Option<T>
    decreases items.len(),
{
    if items.len() == 0 {
        None
    } else if key(items.last()) == k {
        Some(items.last())
    } else {
        last_with(items.drop_last(), key, k)
    }
}

proof fn last_with_is_at<T, M>(items: Seq<T>, key: spec_fn(T) -> M, k: M)
    requires
        items.len() <= usize::MAX,
    ensures
        last_with(items, key, k) == (match last_position(items.map_values(key), k) {
            Some(at) => Some(items[at as int]),
            None => None,
        }),
        last_position(items.map_values(key), k) matches Some(at) ==> at < items.len(),
    decreases items.len(),
{
    if items.len() > 0 {
        last_with_is_at(items.drop_last(), key, k);
        assert(items.map_values(key).drop_last() == items.drop_last().map_values(key));
    }
}

/// Choosing the last item by a key of the views chooses the last view.
pub proof fn last_with_through<T, U, M>(
    items: Seq<T>,
    view: spec_fn(T) -> U,
    key: spec_fn(U) -> M,
    k: M,
)
    ensures
        last_with(items.map_values(view), key, k) == (match last_with(
            items,
            |t: T| key(view(t)),
            k,
        ) {
            Some(t) => Some(view(t)),
            None => None,
        }),
    decreases items.len(),
{
    if items.len() > 0 {
        last_with_through(items.drop_last(), view, key, k);
        assert(items.map_values(view).drop_last() == items.drop_last().map_values(view));
    }
}

/// The keys of both sides of a join, each once, in their order.
pub open spec fn union_keys<K: Key>(base: Seq<K::Model>, candidate: Seq<K::Model>) -> Seq<K::Model> {
    distinct_sorted::<K>(base + candidate)
}

/// Both sides of a full join: for each key the last item of each side that has it.
pub open spec fn pairs_of<T, K: Key>(
    base: Seq<T>,
    candidate: Seq<T>,
    key: spec_fn(T) -> K::Model,
) -> Seq<(Option<T>, Option<T>)> {
    union_keys::<K>(base.map_values(key), candidate.map_values(key)).map_values(
        |k: K::Model| (last_with(base, key, k), last_with(candidate, key, k)),
    )
}

proof fn full_join_keys<K: Key>(b: Seq<K::Model>, c: Seq<K::Model>, rows: Seq<Matched>)
    requires
        full_join::<K>(b, c, rows),
        b.len() <= usize::MAX,
        c.len() <= usize::MAX,
    ensures
        rows.map_values(|r: Matched| matched_key(b, c, r)) == union_keys::<K>(b, c),
{
    let keys = rows.map_values(|r: Matched| matched_key(b, c, r));
    let all = distinct_sorted::<K>(b + c);
    let before = crate::order::key_before::<K>();
    crate::order::distinct_sorted_holds::<K>(b + c);
    crate::order::key_before_is_strict::<K>();
    assert forall|i: int, j: int| 0 <= i < j < keys.len() implies #[trigger] before(
        keys[i],
        keys[j],
    ) by {
        assert(K::precedes(matched_key(b, c, rows[i]), matched_key(b, c, rows[j])));
    }
    assert forall|x: K::Model| #[trigger] keys.contains(x) <==> all.contains(x) by {
        if keys.contains(x) {
            let r = choose|r: int| 0 <= r < keys.len() && keys[r] == x;
            assert(matched(b, c, rows[r]));
            last_position_in_range(b, x);
            last_position_in_range(c, x);
            match rows[r].base {
                Some(i) => {
                    assert((b + c)[i as int] == x);
                },
                None => {
                    assert((b + c)[b.len() + rows[r].candidate->0] == x);
                },
            }
            assert((b + c).contains(x));
        }
        if all.contains(x) {
            assert((b + c).contains(x));
            let i = choose|i: int| 0 <= i < (b + c).len() && (b + c)[i] == x;
            if i < b.len() {
                assert(has_row(b, c, rows, b[i]));
            } else {
                assert(has_row(b, c, rows, c[i - b.len()]));
            }
            let r = choose|r: int|
                0 <= r < rows.len() && matched_key(b, c, #[trigger] rows[r]) == x;
            assert(keys[r] == x);
        }
    }
    crate::order::ascending_is_unique(before, keys, all);
}

/// Joins two lists of items in full.
pub fn pair_up<T, K: Key>(
    base: Vec<T>,
    base_keys: Vec<K>,
    candidate: Vec<T>,
    candidate_keys: Vec<K>,
    Ghost(key): Ghost<spec_fn(T) -> K::Model>,
) -> (out: Vec<(Option<T>, Option<T>)>)
    requires
        models(base_keys@) == base@.map_values(key),
        models(candidate_keys@) == candidate@.map_values(key),
        base@.len() + candidate@.len() <= usize::MAX,
    ensures
        out@ == pairs_of::<T, K>(base@, candidate@, key),
{
    let ghost b = base@.map_values(key);
    let ghost c = candidate@.map_values(key);
    let ghost left = base@;
    let ghost right = candidate@;
    assert(models(base_keys@).len() == base_keys@.len());
    assert(models(candidate_keys@).len() == candidate_keys@.len());
    let rows = full_outer_join(base_keys, candidate_keys);
    proof {
        full_join_keys::<K>(b, c, rows@);
    }
    let mut from_base = slots(base);
    let mut from_candidate = slots(candidate);
    let ghost all = union_keys::<K>(b, c);
    let ghost each = |k: K::Model| (last_with(left, key, k), last_with(right, key, k));
    let mut out: Vec<(Option<T>, Option<T>)> = Vec::new();
    let mut r: usize = 0;
    while r < rows.len()
        invariant
            r <= rows@.len(),
            b == left.map_values(key),
            c == right.map_values(key),
            left.len() <= usize::MAX,
            right.len() <= usize::MAX,
            full_join::<K>(b, c, rows@),
            rows@.map_values(|r: Matched| matched_key(b, c, r)) == all,
            each == (|k: K::Model| (last_with(left, key, k), last_with(right, key, k))),
            from_base@.len() == left.len(),
            from_candidate@.len() == right.len(),
            forall|s: int|
                0 <= s < rows@.len() ==> ((#[trigger] rows@[s]).base matches Some(i) ==> i
                    < left.len()) && (rows@[s].candidate matches Some(i) ==> i < right.len()),
            forall|s: int|
                r <= s < rows@.len() ==> ((#[trigger] rows@[s]).base matches Some(i)
                    ==> from_base@[i as int] == Some(left[i as int])) && (
                rows@[s].candidate matches Some(i) ==> from_candidate@[i as int] == Some(
                    right[i as int],
                )),
            out@ == all.take(r as int).map_values(each),
        decreases rows.len() - r,
    {
        let row = rows[r];
        let ghost k = all[r as int];
        proof {
            assert(rows@.map_values(|r: Matched| matched_key(b, c, r))[r as int] == matched_key(
                b,
                c,
                row,
            ));
            assert(matched(b, c, rows@[r as int]));
            last_with_is_at(left, key, k);
            last_with_is_at(right, key, k);
            // No later row names the same item.
            assert forall|s: int| r < s < rows@.len() implies ((
            #[trigger] rows@[s]).base is Some ==> rows@[s].base != row.base) && (
            rows@[s].candidate is Some ==> rows@[s].candidate != row.candidate) by {
                let other = matched_key(b, c, rows@[s]);
                assert(K::precedes(matched_key(b, c, rows@[r as int]), other));
                K::strict_order(k, k, k);
                assert(matched(b, c, rows@[s]));
                last_position_in_range(b, other);
                last_position_in_range(c, other);
                last_position_in_range(b, k);
                last_position_in_range(c, k);
            }
        }
        let one: Option<T> = match row.base {
            Some(i) => from_base[i].take(),
            None => None,
        };
        let two: Option<T> = match row.candidate {
            Some(i) => from_candidate[i].take(),
            None => None,
        };
        out.push((one, two));
        assert(all.take(r + 1).map_values(each) == all.take(r as int).map_values(each).push(
            each(k),
        ));
        r += 1;
    }
    assert(all.take(r as int) == all);
    out
}

/// A full join loses no key and repeats none: its rows are one for each key of either side, and
/// each row has an item of one side at least.
pub proof fn joins_lose_no_key<T, K: Key>(
    base: Seq<T>,
    candidate: Seq<T>,
    key: spec_fn(T) -> K::Model,
)
    requires
        base.len() <= usize::MAX,
        candidate.len() <= usize::MAX,
    ensures
        forall|i: int|
            0 <= i < base.len() ==> union_keys::<K>(
                base.map_values(key),
                candidate.map_values(key),
            ).contains(key(#[trigger] base[i])),
        forall|i: int|
            0 <= i < candidate.len() ==> union_keys::<K>(
                base.map_values(key),
                candidate.map_values(key),
            ).contains(key(#[trigger] candidate[i])),
        forall|r: int|
            0 <= r < pairs_of::<T, K>(base, candidate, key).len() ==> (#[trigger] pairs_of::<T, K>(
                base,
                candidate,
                key,
            )[r]).0 is Some || pairs_of::<T, K>(base, candidate, key)[r].1 is Some,
        union_keys::<K>(base.map_values(key), candidate.map_values(key)).no_duplicates(),
{
    let b = base.map_values(key);
    let c = candidate.map_values(key);
    let all = union_keys::<K>(b, c);
    crate::order::distinct_sorted_holds::<K>(b + c);
    crate::order::key_before_is_strict::<K>();
    let before = crate::order::key_before::<K>();
    assert forall|i: int| 0 <= i < base.len() implies all.contains(key(#[trigger] base[i])) by {
        assert((b + c)[i] == key(base[i]));
        assert((b + c).contains(key(base[i])));
    }
    assert forall|i: int| 0 <= i < candidate.len() implies all.contains(
        key(#[trigger] candidate[i]),
    ) by {
        assert((b + c)[b.len() + i] == key(candidate[i]));
        assert((b + c).contains(key(candidate[i])));
    }
    assert forall|i: int, j: int| 0 <= i < all.len() && 0 <= j < all.len() && i != j implies all[i]
        != all[j] by {
        let x = if i < j { i } else { j };
        let y = if i < j { j } else { i };
        assert(before(all[x], all[y]));
    }
    let pairs = pairs_of::<T, K>(base, candidate, key);
    assert forall|r: int| 0 <= r < pairs.len() implies (#[trigger] pairs[r]).0 is Some
        || pairs[r].1 is Some by {
        let k = all[r];
        assert(all.contains(k));
        assert((b + c).contains(k));
        let i = choose|i: int| 0 <= i < (b + c).len() && (b + c)[i] == k;
        last_with_is_at(base, key, k);
        last_with_is_at(candidate, key, k);
        last_position_in_range(b, k);
        last_position_in_range(c, k);
        if i < b.len() {
            assert(b[i] == k);
        } else {
            assert(c[i - b.len()] == k);
        }
    }
}

/// The views of both sides of a pair.
pub open spec fn both_views<T, U>(view: spec_fn(T) -> U) -> spec_fn((Option<T>, Option<T>)) -> (
    Option<U>,
    Option<U>,
) {
    |p: (Option<T>, Option<T>)|
        (
            match p.0 {
                Some(t) => Some(view(t)),
                None => None,
            },
            match p.1 {
                Some(t) => Some(view(t)),
                None => None,
            },
        )
}

/// Joining by a key of the views joins the views.
pub proof fn pairs_through<T, U, K: Key>(
    base: Seq<T>,
    candidate: Seq<T>,
    view: spec_fn(T) -> U,
    key: spec_fn(U) -> K::Model,
)
    ensures
        pairs_of::<T, K>(base, candidate, |t: T| key(view(t))).map_values(both_views(view))
            == pairs_of::<U, K>(base.map_values(view), candidate.map_values(view), key),
{
    let through = |t: T| key(view(t));
    let b = base.map_values(view);
    let c = candidate.map_values(view);
    assert(base.map_values(through) == b.map_values(key));
    assert(candidate.map_values(through) == c.map_values(key));
    let left = pairs_of::<T, K>(base, candidate, through).map_values(both_views(view));
    let right = pairs_of::<U, K>(b, c, key);
    let all = union_keys::<K>(b.map_values(key), c.map_values(key));
    assert forall|i: int| 0 <= i < all.len() implies left[i] == right[i] by {
        last_with_through(base, view, key, all[i]);
        last_with_through(candidate, view, key, all[i]);
    }
    assert(left == right);
}

/// Sorting keeps the number of items.
pub proof fn sorted_length<T, K: Key>(items: Seq<T>, key: spec_fn(T) -> K::Model)
    ensures
        stable_sorted::<T, K>(items, key).len() == items.len(),
    decreases items.len(),
{
    if items.len() > 0 {
        sorted_length::<T, K>(items.drop_last(), key);
        inserted_length::<T, K>(
            stable_sorted::<T, K>(items.drop_last(), key),
            key,
            items.last(),
        );
    }
}

proof fn inserted_length<T, K: Key>(sorted: Seq<T>, key: spec_fn(T) -> K::Model, x: T)
    ensures
        crate::order::insert_item::<T, K>(sorted, key, x).len() == sorted.len() + 1,
    decreases sorted.len(),
{
    if sorted.len() > 0 {
        inserted_length::<T, K>(sorted.drop_last(), key, x);
    }
}

proof fn inserted_holds<T, M, K: Key>(
    sorted: Seq<T>,
    key: spec_fn(T) -> K::Model,
    x: T,
    name: spec_fn(T) -> M,
)
    ensures
        ({
            let out = crate::order::insert_item::<T, K>(sorted, key, x);
            &&& forall|y: T| #[trigger] out.contains(y) <==> y == x || sorted.contains(y)
            &&& sorted.map_values(name).no_duplicates() && !sorted.map_values(name).contains(
                name(x),
            ) ==> out.map_values(name).no_duplicates()
        }),
    decreases sorted.len(),
{
    let out = crate::order::insert_item::<T, K>(sorted, key, x);
    if sorted.len() > 0 && K::precedes(key(x), key(sorted.last())) {
        let rest = sorted.drop_last();
        let last = sorted.last();
        inserted_holds::<T, M, K>(rest, key, x, name);
        let inner = crate::order::insert_item::<T, K>(rest, key, x);
        assert(sorted == rest.push(last));
        pushed_holds(rest, last, name);
        pushed_holds(inner, last, name);
        if sorted.map_values(name).no_duplicates() && !sorted.map_values(name).contains(name(x)) {
            let names = sorted.map_values(name);
            let heads = rest.map_values(name);
            assert forall|i: int, j: int|
                0 <= i < heads.len() && 0 <= j < heads.len() && i != j implies heads[i]
                != heads[j] by {
                assert(names[i] == heads[i] && names[j] == heads[j]);
            }
            if heads.contains(name(x)) {
                let i = choose|i: int| 0 <= i < heads.len() && heads[i] == name(x);
                assert(names[i] == name(x));
            }
            if inner.map_values(name).contains(name(last)) {
                let i = choose|i: int|
                    0 <= i < inner.len() && inner.map_values(name)[i] == name(last);
                assert(inner.contains(inner[i]));
                if inner[i] == x {
                    assert(names[sorted.len() - 1] == name(x));
                } else {
                    let j = choose|j: int| 0 <= j < rest.len() && rest[j] == inner[i];
                    assert(names[j] == names[sorted.len() - 1]);
                }
            }
        }
    } else {
        pushed_holds(sorted, x, name);
    }
}

proof fn pushed_holds<T, M>(items: Seq<T>, x: T, name: spec_fn(T) -> M)
    ensures
        forall|y: T| #[trigger] items.push(x).contains(y) <==> y == x || items.contains(y),
        items.map_values(name).no_duplicates() && !items.map_values(name).contains(name(x))
            ==> items.push(x).map_values(name).no_duplicates(),
{
    let all = items.push(x);
    assert forall|y: T| #[trigger] all.contains(y) <==> y == x || items.contains(y) by {
        if items.contains(y) {
            let i = choose|i: int| 0 <= i < items.len() && items[i] == y;
            assert(all[i] == y);
        }
        if y == x {
            assert(all[items.len() as int] == y);
        }
    }
    let names = items.map_values(name);
    let all_names = all.map_values(name);
    assert(all_names == names.push(name(x)));
    if names.no_duplicates() && !names.contains(name(x)) {
        assert forall|i: int, j: int|
            0 <= i < all_names.len() && 0 <= j < all_names.len() && i != j implies all_names[i]
            != all_names[j] by {
            if i < names.len() {
                assert(names.contains(names[i]));
            }
            if j < names.len() {
                assert(names.contains(names[j]));
            }
        }
    }
}

/// Sorting keeps all items and adds none, and items with different names keep them.
pub proof fn sorting_keeps_items<T, M, K: Key>(
    items: Seq<T>,
    key: spec_fn(T) -> K::Model,
    name: spec_fn(T) -> M,
)
    ensures
        forall|y: T| #[trigger]
            stable_sorted::<T, K>(items, key).contains(y) <==> items.contains(y),
        items.map_values(name).no_duplicates() ==> stable_sorted::<T, K>(items, key).map_values(
            name,
        ).no_duplicates(),
    decreases items.len(),
{
    if items.len() > 0 {
        let rest = items.drop_last();
        let x = items.last();
        let sorted = stable_sorted::<T, K>(rest, key);
        sorting_keeps_items::<T, M, K>(rest, key, name);
        inserted_holds::<T, M, K>(sorted, key, x, name);
        pushed_holds(rest, x, name);
        assert(items == rest.push(x));
        if items.map_values(name).no_duplicates() {
            let names = items.map_values(name);
            let heads = rest.map_values(name);
            assert forall|i: int, j: int|
                0 <= i < heads.len() && 0 <= j < heads.len() && i != j implies heads[i]
                != heads[j] by {
                assert(names[i] == heads[i] && names[j] == heads[j]);
            }
            if sorted.map_values(name).contains(name(x)) {
                let i = choose|i: int|
                    0 <= i < sorted.len() && sorted.map_values(name)[i] == name(x);
                assert(sorted.contains(sorted[i]));
                let j = choose|j: int| 0 <= j < rest.len() && rest[j] == sorted[i];
                assert(names[j] == names[items.len() - 1]);
            }
        }
    } else {
        assert(stable_sorted::<T, K>(items, key).map_values(name).len() == 0);
    }
}

/// No key is listed twice.
pub proof fn sorted_keys_are_distinct<K: Key>(keys: Seq<K::Model>)
    ensures
        distinct_sorted::<K>(keys).no_duplicates(),
{
    let all = distinct_sorted::<K>(keys);
    crate::order::distinct_sorted_holds::<K>(keys);
    crate::order::key_before_is_strict::<K>();
    let before = crate::order::key_before::<K>();
    assert forall|i: int, j: int| 0 <= i < all.len() && 0 <= j < all.len() && i != j implies all[i]
        != all[j] by {
        let x = if i < j { i } else { j };
        let y = if i < j { j } else { i };
        assert(before(all[x], all[y]));
    }
}

/// Rows that are made one for each key, and hold it, have different keys in whatever order they
/// are shown.
pub proof fn rows_of_keys_are_distinct<T, K: Key, S: Key>(
    keys: Seq<K::Model>,
    make: spec_fn(K::Model) -> T,
    order: spec_fn(T) -> S::Model,
    name: spec_fn(T) -> K::Model,
)
    requires
        forall|i: int|
            0 <= i < distinct_sorted::<K>(keys).len() ==> name(
                make(#[trigger] distinct_sorted::<K>(keys)[i]),
            ) == distinct_sorted::<K>(keys)[i],
    ensures
        stable_sorted::<T, S>(
            distinct_sorted::<K>(keys).map_values(make),
            order,
        ).map_values(name).no_duplicates(),
        distinct_sorted::<K>(keys).map_values(make).map_values(name).no_duplicates(),
{
    let all = distinct_sorted::<K>(keys);
    sorted_keys_are_distinct::<K>(keys);
    assert(all.map_values(make).map_values(name) == all);
    sorting_keeps_items::<T, K::Model, S>(all.map_values(make), order, name);
}

/// A list of different names stays one when it is cut.
pub proof fn cut_names_are_distinct<T, M>(all: Seq<T>, n: int, name: spec_fn(T) -> M)
    requires
        0 <= n <= all.len(),
        all.map_values(name).no_duplicates(),
    ensures
        all.take(n).map_values(name).no_duplicates(),
{
    let names = all.map_values(name);
    let shown = all.take(n).map_values(name);
    assert forall|i: int, j: int|
        0 <= i < shown.len() && 0 <= j < shown.len() && i != j implies shown[i] != shown[j] by {
        assert(names[i] == shown[i] && names[j] == shown[j]);
    }
}

/// The only item with a key is the last one with it.
proof fn only_item_is_last<T, M>(items: Seq<T>, key: spec_fn(T) -> M, i: int)
    requires
        0 <= i < items.len(),
        items.map_values(key).no_duplicates(),
    ensures
        last_with(items, key, key(items[i])) == Some(items[i]),
    decreases items.len(),
{
    let keys = items.map_values(key);
    if i < items.len() - 1 {
        assert(keys[i] != keys[items.len() - 1]);
        let rest = items.drop_last();
        cut_names_are_distinct(items, items.len() - 1, key);
        assert(rest == items.take(items.len() - 1));
        only_item_is_last(rest, key, i);
    }
}

/// A full join keeps every row of both sides, where no side has two rows of one key: each stands
/// in a pair, with the row of the other side that has its key.
pub proof fn comparisons_keep_every_row<T, K: Key>(
    base: Seq<T>,
    candidate: Seq<T>,
    key: spec_fn(T) -> K::Model,
)
    requires
        base.map_values(key).no_duplicates(),
        candidate.map_values(key).no_duplicates(),
    ensures
        forall|i: int|
            #![trigger base[i]]
            0 <= i < base.len() ==> exists|r: int|
                0 <= r < pairs_of::<T, K>(base, candidate, key).len() && (
                #[trigger] pairs_of::<T, K>(base, candidate, key)[r]).0 == Some(base[i]),
        forall|i: int|
            #![trigger candidate[i]]
            0 <= i < candidate.len() ==> exists|r: int|
                0 <= r < pairs_of::<T, K>(base, candidate, key).len() && (
                #[trigger] pairs_of::<T, K>(base, candidate, key)[r]).1 == Some(candidate[i]),
{
    let b = base.map_values(key);
    let c = candidate.map_values(key);
    let all = union_keys::<K>(b, c);
    let pairs = pairs_of::<T, K>(base, candidate, key);
    crate::order::distinct_sorted_holds::<K>(b + c);
    assert forall|i: int| #![trigger base[i]] 0 <= i < base.len() implies exists|r: int|
        0 <= r < pairs.len() && (#[trigger] pairs[r]).0 == Some(base[i]) by {
        assert((b + c)[i] == key(base[i]));
        assert((b + c).contains(key(base[i])));
        assert(all.contains(key(base[i])));
        let r = choose|r: int| 0 <= r < all.len() && all[r] == key(base[i]);
        only_item_is_last(base, key, i);
        assert(pairs[r].0 == Some(base[i]));
    }
    assert forall|i: int| #![trigger candidate[i]] 0 <= i < candidate.len() implies exists|r: int|
        0 <= r < pairs.len() && (#[trigger] pairs[r]).1 == Some(candidate[i]) by {
        assert((b + c)[b.len() + i] == key(candidate[i]));
        assert((b + c).contains(key(candidate[i])));
        assert(all.contains(key(candidate[i])));
        let r = choose|r: int| 0 <= r < all.len() && all[r] == key(candidate[i]);
        only_item_is_last(candidate, key, i);
        assert(pairs[r].1 == Some(candidate[i]));
    }
}

/// The last item with a key is one of the items.
pub proof fn last_with_holds<T, M>(items: Seq<T>, key: spec_fn(T) -> M, k: M)
    ensures
        last_with(items, key, k) matches Some(t) ==> exists|i: int|
            0 <= i < items.len() && #[trigger] items[i] == t,
    decreases items.len(),
{
    if items.len() > 0 {
        if key(items.last()) == k {
            assert(items[items.len() - 1] == items.last());
        } else {
            last_with_holds(items.drop_last(), key, k);
            if let Some(t) = last_with(items, key, k) {
                let i = choose|i: int|
                    0 <= i < items.drop_last().len() && #[trigger] items.drop_last()[i] == t;
                assert(items[i] == t);
            }
        }
    }
}

/// The views of the values behind references.
pub open spec fn ref_views<T: View>(refs: Seq<&T>) -> Seq<T::V> {
    refs.map_values(|r: &T| (*r)@)
}

/// The views of a list of values.
pub open spec fn value_views<T: View>(items: Seq<T>) -> Seq<T::V> {
    items.map_values(|t: T| t@)
}

/// The parts one after the other.
pub open spec fn chain<U>(parts: Seq<Seq<U>>) -> Seq<U>
    decreases parts.len(),
{
    if parts.len() == 0 {
        Seq::empty()
    } else {
        chain(parts.drop_last()) + parts.last()
    }
}

/// References to the items of a list.
pub fn borrowed<'a, T>(items: &'a [T]) -> (out: Vec<&'a T>)
    ensures
        derefs(out@) == items@,
{
    let mut out: Vec<&'a T> = Vec::new();
    let mut i: usize = 0;
    while i < items.len()
        invariant
            i <= items@.len(),
            derefs(out@) == items@.take(i as int),
        decreases items.len() - i,
    {
        let ghost was = out@;
        out.push(&items[i]);
        assert(derefs(out@) == derefs(was).push(items@[i as int]));
        assert(items@.take(i + 1) == items@.take(i as int).push(items@[i as int]));
        i += 1;
    }
    assert(items@.take(i as int) == items@);
    out
}

/// The items of each key that occurs, in the order of the keys; the items of one key keep their
/// order. The keys are those of the items' views.
pub fn grouped<'a, T: View, K: Key>(
    items: &'a [T],
    keys: &Vec<K>,
    Ghost(key): Ghost<spec_fn(T::V) -> K::Model>,
) -> (out: Vec<Vec<&'a T>>)
    requires
        models(keys@) == value_views(items@).map_values(key),
    ensures
        out@.len() == distinct_sorted::<K>(value_views(items@).map_values(key)).len(),
        forall|g: int|
            0 <= g < out@.len() ==> ref_views((#[trigger] out@[g])@) == with_key(
                value_views(items@),
                key,
                distinct_sorted::<K>(value_views(items@).map_values(key))[g],
            ) && out@[g]@.len() > 0,
{
    let refs = borrowed(items);
    let ghost view = |t: T| t@;
    let ghost through = |t: T| key(view(t));
    assert(derefs(refs@).map_values(through) == value_views(items@).map_values(key));
    let out = group_rows(&refs, keys, Ghost(through));
    proof {
        let names = distinct_sorted::<K>(value_views(items@).map_values(key));
        assert forall|g: int| 0 <= g < out@.len() implies ref_views((#[trigger] out@[g])@)
            == with_key(value_views(items@), key, names[g]) && out@[g]@.len() > 0 by {
            with_key_through(items@, view, key, names[g]);
            assert(ref_views(out@[g]@) == derefs(out@[g]@).map_values(view));
            assert(value_views(items@) == items@.map_values(view));
        }
    }
    out
}

/// Nothing has a key that does not occur.
pub proof fn with_key_absent<T, M>(items: Seq<T>, key: spec_fn(T) -> M, k: M)
    requires
        !items.map_values(key).contains(k),
    ensures
        with_key(items, key, k).len() == 0,
{
    if with_key(items, key, k).len() > 0 {
        with_key_holds(items, key, k, 0);
        let x = with_key(items, key, k)[0];
        let i = choose|i: int| 0 <= i < items.len() && items[i] == x;
        assert(items.map_values(key)[i] == k);
    }
}

/// An item is among those with its key.
pub proof fn with_key_contains<T, M>(items: Seq<T>, key: spec_fn(T) -> M, i: int)
    requires
        0 <= i < items.len(),
    ensures
        with_key(items, key, key(items[i])).contains(items[i]),
        with_key(items, key, key(items[i])).len() > 0,
{
    let k = key(items[i]);
    let p = |x: T| key(x) == k;
    assert(with_key(items, key, k) == items.filter(p));
    items.lemma_filter_contains(p, i);
}

} // verus!
