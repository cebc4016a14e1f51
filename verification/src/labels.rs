//! Labels and counts: values keyed by text, in the order of their keys.
use crate::number::Number;
use crate::order::{text_before, text_order, text_rank, Key, Rank};
use crate::text::same;
use vstd::prelude::*;

verus! {

/// A label as a pair of texts.
pub type Pair = (Seq<char>, Seq<char>);

/// Keys that ascend strictly.
pub open spec fn ascending<T>(pairs: Seq<(Seq<char>, T)>) -> bool {
    forall|i: int, j: int|
        0 <= i < j < pairs.len() ==> #[trigger] text_before(pairs[i].0, pairs[j].0)
}

/// The value that `pairs` holds for `key`.
pub open spec fn lookup<T>(pairs: Seq<(Seq<char>, T)>, key: Seq<char>) -> Option<T>
    decreases pairs.len(),
{
    if pairs.len() == 0 {
        None
    } else if pairs.last().0 == key {
        Some(pairs.last().1)
    } else {
        lookup(pairs.drop_last(), key)
    }
}

/// `pairs` with `value` in the place of what `key` held, or inserted where `key` belongs.
pub open spec fn with_label<T>(pairs: Seq<(Seq<char>, T)>, key: Seq<char>, value: T) -> Seq<
    (Seq<char>, T),
>
    decreases pairs.len(),
{
    if pairs.len() == 0 {
        seq![(key, value)]
    } else if pairs.last().0 == key {
        pairs.drop_last().push((key, value))
    } else if text_before(pairs.last().0, key) {
        pairs.push((key, value))
    } else {
        with_label(pairs.drop_last(), key, value).push(pairs.last())
    }
}

/// Values keyed by text, with distinct keys in ascending order.
#[derive(Debug)]
pub struct TextMap<V> {
    entries: Vec<(String, V)>,
}

/// A set of labels.
pub type Labels = TextMap<String>;

/// Numbers keyed by text.
pub type Counts = TextMap<Number>;

pub open spec fn pair_views<V: View>(entries: Seq<(String, V)>) -> Seq<(Seq<char>, V::V)> {
    entries.map_values(|e: (String, V)| (e.0@, e.1@))
}

impl<V: View> View for TextMap<V> {
    type V = Seq<(Seq<char>, V::V)>;

    closed spec fn view(&self) -> Seq<(Seq<char>, V::V)> {
        pair_views(self.entries@)
    }
}

/// Inserting into ascending keys keeps them ascending, and only `key` changes its value.
pub proof fn with_label_holds<T>(pairs: Seq<(Seq<char>, T)>, key: Seq<char>, value: T)
    requires
        ascending(pairs),
    ensures
        ascending(with_label(pairs, key, value)),
        lookup(with_label(pairs, key, value), key) == Some(value),
        forall|k: Seq<char>|
            k != key ==> #[trigger] lookup(with_label(pairs, key, value), k) == lookup(pairs, k),
        forall|p: (Seq<char>, T)|
            #[trigger] with_label(pairs, key, value).contains(p) ==> p == (key, value)
                || pairs.contains(p),
    decreases pairs.len(),
{
    let out = with_label(pairs, key, value);
    if pairs.len() == 0 {
        assert(out.drop_last() == Seq::<(Seq<char>, T)>::empty());
        assert forall|k: Seq<char>| k != key implies #[trigger] lookup(out, k) == lookup(
            pairs,
            k,
        ) by {
            assert(lookup(out.drop_last(), k) is None);
        }
    } else {
        let rest = pairs.drop_last();
        let last = pairs.last();
        with_label_holds(rest, key, value);
        if last.0 == key {
            assert(out.drop_last() == rest);
            assert forall|i: int, j: int| 0 <= i < j < out.len() implies #[trigger] text_before(
                out[i].0,
                out[j].0,
            ) by {
                assert(text_before(pairs[i].0, pairs[j].0));
            }
        } else if text_before(last.0, key) {
            assert(out.drop_last() == pairs);
            assert forall|i: int, j: int| 0 <= i < j < out.len() implies #[trigger] text_before(
                out[i].0,
                out[j].0,
            ) by {
                if j == pairs.len() {
                    if i < pairs.len() - 1 {
                        assert(text_before(pairs[i].0, last.0));
                        text_order(pairs[i].0, last.0, key);
                    }
                } else {
                    assert(text_before(pairs[i].0, pairs[j].0));
                }
            }
        } else {
            let inner = with_label(rest, key, value);
            assert(out.drop_last() == inner);
            text_order(last.0, key, key);
            assert forall|i: int, j: int| 0 <= i < j < out.len() implies #[trigger] text_before(
                out[i].0,
                out[j].0,
            ) by {
                if j == out.len() - 1 {
                    assert(inner.contains(inner[i]));
                    if inner[i] != (key, value) {
                        assert(rest.contains(inner[i]));
                        let p = choose|p: int| 0 <= p < rest.len() && rest[p] == inner[i];
                        assert(text_before(pairs[p].0, pairs[pairs.len() - 1].0));
                    }
                } else {
                    assert(text_before(inner[i].0, inner[j].0));
                }
            }
        }
        assert forall|k: Seq<char>| k != key implies #[trigger] lookup(out, k) == lookup(
            pairs,
            k,
        ) by {
            assert(lookup(with_label(rest, key, value), k) == lookup(rest, k));
        }
        assert forall|p: (Seq<char>, T)| #[trigger] out.contains(p) implies p == (key, value)
            || pairs.contains(p) by {
            let i = choose|i: int| 0 <= i < out.len() && out[i] == p;
            if last.0 == key {
                if i < rest.len() {
                    assert(pairs[i] == p);
                }
            } else if text_before(last.0, key) {
                if i < pairs.len() {
                    assert(pairs[i] == p);
                }
            } else {
                let inner = with_label(rest, key, value);
                if i < inner.len() {
                    assert(inner.contains(p));
                    if p != (key, value) {
                        let q = choose|q: int| 0 <= q < rest.len() && rest[q] == p;
                        assert(pairs[q] == p);
                    }
                } else {
                    assert(pairs[pairs.len() - 1] == p);
                }
            }
        }
    }
}

spec fn keyed<V>(entries: Seq<(String, V)>) -> Seq<(Seq<char>, V)> {
    entries.map_values(|e: (String, V)| (e.0@, e.1))
}

proof fn keys_alone_ascend<V: View>(entries: Seq<(String, V)>)
    ensures
        ascending(keyed(entries)) == ascending(pair_views(entries)),
{
    let a = keyed(entries);
    let b = pair_views(entries);
    if ascending(a) {
        assert forall|i: int, j: int| 0 <= i < j < b.len() implies #[trigger] text_before(
            b[i].0,
            b[j].0,
        ) by {
            assert(text_before(a[i].0, a[j].0));
        }
    }
    if ascending(b) {
        assert forall|i: int, j: int| 0 <= i < j < a.len() implies #[trigger] text_before(
            a[i].0,
            a[j].0,
        ) by {
            assert(text_before(b[i].0, b[j].0));
        }
    }
}

impl<V> TextMap<V> {
    #[verifier::type_invariant]
    spec fn well_formed(self) -> bool {
        ascending(keyed(self.entries@))
    }
}

impl<V: View> TextMap<V> {

    /// The map of no keys.
    pub fn new() -> (r: TextMap<V>)
        ensures
            r@ == Seq::<(Seq<char>, V::V)>::empty(),
    {
        let r: TextMap<V> = TextMap { entries: Vec::new() };
        assert(r@ == Seq::<(Seq<char>, V::V)>::empty());
        r
    }

    /// The number of keys; they ascend strictly.
    pub fn len(&self) -> (r: usize)
        ensures
            r == self@.len(),
            ascending(self@),
    {
        proof {
            use_type_invariant(self);
            keys_alone_ascend(self.entries@);
        }
        self.entries.len()
    }

    /// The key at position `i`.
    pub fn key(&self, i: usize) -> (r: &String)
        requires
            i < self@.len(),
        ensures
            r@ == self@[i as int].0,
    {
        &self.entries[i].0
    }

    /// The value at position `i`.
    pub fn value(&self, i: usize) -> (r: &V)
        requires
            i < self@.len(),
        ensures
            r@ == self@[i as int].1,
    {
        &self.entries[i].1
    }

    /// The value for `key`.
    pub fn get(&self, key: &str) -> (r: Option<&V>)
        ensures
            match r {
                Some(v) => lookup(self@, key@) == Some(v@),
                None => lookup(self@, key@) is None,
            },
    {
        let mut n: usize = self.entries.len();
        assert(self@.take(n as int) == self@);
        while n > 0
            invariant
                n <= self.entries@.len(),
                lookup(self@, key@) == lookup(self@.take(n as int), key@),
            decreases n,
        {
            let entry = &self.entries[n - 1];
            assert(self@.take(n as int).last() == (entry.0@, entry.1@));
            if same(entry.0.as_str(), key) {
                return Some(&entry.1);
            }
            assert(self@.take(n as int).drop_last() == self@.take(n - 1));
            n -= 1;
        }
        None
    }

    /// Whether `key` has a value.
    pub fn has(&self, key: &str) -> (r: bool)
        ensures
            r == (lookup(self@, key@) is Some),
    {
        self.get(key).is_some()
    }

    /// Gives `key` the value `value`.
    pub fn insert(&mut self, key: String, value: V)
        ensures
            final(self)@ == with_label(old(self)@, key@, value@),
            lookup(final(self)@, key@) == Some(value@),
            forall|k: Seq<char>|
                k != key@ ==> #[trigger] lookup(final(self)@, k) == lookup(old(self)@, k),
    {
        proof {
            use_type_invariant(&*self);
            keys_alone_ascend(self.entries@);
            with_label_holds(self@, key@, value@);
        }
        let ghost before = self@;
        let ghost k = key@;
        let ghost v = value@;
        let mut entries: Vec<(String, V)> = Vec::new();
        std::mem::swap(&mut entries, &mut self.entries);
        let mut tail: Vec<(String, V)> = Vec::new();
        assert(pair_views(entries@) == before);
        assert(before.take(entries@.len() as int) == before);
        assert(with_label(before, k, v) + pair_views(tail@).reverse() == with_label(before, k, v));
        // Take off the entries that come after the new one.
        loop
            invariant_except_break
                pair_views(entries@).len() <= before.len(),
                pair_views(entries@) == before.take(entries@.len() as int),
                with_label(before, k, v) == with_label(
                    before.take(entries@.len() as int),
                    k,
                    v,
                ) + pair_views(tail@).reverse(),
            invariant
                k == key@,
                v == value@,
            ensures
                with_label(before, k, v) == pair_views(entries@).push((k, v)) + pair_views(
                    tail@,
                ).reverse(),
            decreases entries@.len(),
        {
            let n: usize = entries.len();
            let ghost head = before.take(n as int);
            if n == 0 {
                assert(seq![(k, v)] == pair_views(entries@).push((k, v)));
                break;
            }
            assert(head.last() == pair_views(entries@)[n - 1]);
            assert(head.drop_last() == before.take(n - 1));
            let side = text_rank(entries[n - 1].0.as_str(), key.as_str());
            match side {
                Rank::Same => {
                    let ghost was = entries@;
                    let _ = entries.pop();
                    assert(pair_views(entries@) == head.drop_last());
                    break;
                },
                Rank::Before => {
                    proof {
                        text_order(head.last().0, k, head.last().0);
                    }
                    break;
                },
                Rank::After => {
                    proof {
                        text_order(head.last().0, k, head.last().0);
                    }
                    let ghost was_tail = pair_views(tail@).reverse();
                    let ghost old_tail = tail@;
                    let last = entries.pop().unwrap();
                    assert(pair_views(entries@) == head.drop_last());
                    tail.push(last);
                    assert(pair_views(tail@) == pair_views(old_tail).push((last.0@, last.1@)));
                    assert(pair_views(tail@).reverse() == seq![head.last()] + was_tail);
                    assert(with_label(head.drop_last(), k, v).push(head.last()) + was_tail
                        == with_label(head.drop_last(), k, v) + (seq![head.last()] + was_tail));
                },
            }
        }
        let ghost was = entries@;
        entries.push((key, value));
        assert(pair_views(entries@) == pair_views(was).push((k, v)));
        while tail.len() > 0
            invariant
                with_label(before, k, v) == pair_views(entries@) + pair_views(tail@).reverse(),
            decreases tail@.len(),
        {
            let ghost old_entries = entries@;
            let ghost old_tail = tail@;
            let entry = tail.pop().unwrap();
            entries.push(entry);
            assert(pair_views(entries@) == pair_views(old_entries).push((entry.0@, entry.1@)));
            assert(pair_views(old_tail).reverse() == seq![(entry.0@, entry.1@)] + pair_views(
                tail@,
            ).reverse());
        }
        assert(pair_views(tail@).reverse() == Seq::<(Seq<char>, V::V)>::empty());
        assert(pair_views(entries@) == with_label(before, k, v));
        proof {
            keys_alone_ascend(entries@);
        }
        self.entries = entries;
    }
}

impl TextMap<String> {
    /// Whether `key` has the value `value`.
    pub fn holds(&self, key: &str, value: &str) -> (r: bool)
        ensures
            r == (lookup(self@, key@) == Some(value@)),
    {
        match self.get(key) {
            Some(v) => same(v.as_str(), value),
            None => false,
        }
    }
}

impl Clone for TextMap<String> {
    fn clone(&self) -> (r: TextMap<String>)
        ensures
            r@ == self@,
    {
        proof {
            use_type_invariant(self);
            keys_alone_ascend(self.entries@);
        }
        let mut entries: Vec<(String, String)> = Vec::new();
        let mut i: usize = 0;
        while i < self.entries.len()
            invariant
                i <= self.entries@.len(),
                pair_views(entries@) == self@.take(i as int),
            decreases self.entries.len() - i,
        {
            let ghost was = entries@;
            entries.push((self.entries[i].0.clone(), self.entries[i].1.clone()));
            assert(pair_views(entries@) == pair_views(was).push(self@[i as int]));
            assert(self@.take(i + 1) == self@.take(i as int).push(self@[i as int]));
            i += 1;
        }
        assert(self@.take(self@.len() as int) == self@);
        proof {
            keys_alone_ascend(entries@);
        }
        let r = TextMap { entries };
        assert(r@ == self@);
        r
    }
}

impl Clone for TextMap<Number> {
    fn clone(&self) -> (r: TextMap<Number>)
        ensures
            r@ == self@,
    {
        proof {
            use_type_invariant(self);
            keys_alone_ascend(self.entries@);
        }
        let mut entries: Vec<(String, Number)> = Vec::new();
        let mut i: usize = 0;
        while i < self.entries.len()
            invariant
                i <= self.entries@.len(),
                pair_views(entries@) == self@.take(i as int),
            decreases self.entries.len() - i,
        {
            let ghost was = entries@;
            entries.push((self.entries[i].0.clone(), self.entries[i].1));
            assert(pair_views(entries@) == pair_views(was).push(self@[i as int]));
            assert(self@.take(i + 1) == self@.take(i as int).push(self@[i as int]));
            i += 1;
        }
        assert(self@.take(self@.len() as int) == self@);
        proof {
            keys_alone_ascend(entries@);
        }
        let r = TextMap { entries };
        assert(r@ == self@);
        r
    }
}

pub open spec fn pair_before() -> spec_fn(Pair, Pair) -> bool {
    |a: Pair, b: Pair| <(String, String) as Key>::precedes(a, b)
}

/// Label sets are ordered by their first label that differs.
impl Key for TextMap<String> {
    type Model = Seq<Pair>;

    open spec fn model(&self) -> Seq<Pair> {
        self@
    }

    open spec fn precedes(a: Seq<Pair>, b: Seq<Pair>) -> bool {
        crate::order::lexicographic(pair_before(), a, b)
    }

    proof fn strict_order(a: Seq<Pair>, b: Seq<Pair>, c: Seq<Pair>) {
        let before = pair_before();
        assert forall|x: Pair| !(#[trigger] before(x, x)) by {
            <(String, String) as Key>::strict_order(x, x, x);
        }
        assert forall|x: Pair, y: Pair, z: Pair| #[trigger] before(x, y) && #[trigger] before(
            y,
            z,
        ) implies before(x, z) by {
            <(String, String) as Key>::strict_order(x, y, z);
        }
        assert forall|x: Pair, y: Pair| x == y || #[trigger] before(x, y) || before(y, x) by {
            <(String, String) as Key>::strict_order(x, y, y);
        }
        crate::order::lexicographic_is_strict(before, a, b, c);
    }

    fn rank(&self, other: &TextMap<String>) -> (r: Rank) {
        let mut i: usize = 0;
        let ghost before = pair_before();
        let ghost a = self@;
        let ghost b = other@;
        assert(a.skip(0) == a && b.skip(0) == b);
        loop
            invariant
                a == self@,
                b == other@,
                before == pair_before(),
                i <= a.len(),
                i <= b.len(),
                a.take(i as int) == b.take(i as int),
                crate::order::lexicographic(before, a, b) == crate::order::lexicographic(
                    before,
                    a.skip(i as int),
                    b.skip(i as int),
                ),
                crate::order::lexicographic(before, b, a) == crate::order::lexicographic(
                    before,
                    b.skip(i as int),
                    a.skip(i as int),
                ),
            decreases a.len() - i,
        {
            if i == self.entries.len() && i == other.entries.len() {
                assert(a.take(i as int) == a && b.take(i as int) == b);
                return Rank::Same;
            }
            if i == self.entries.len() {
                return Rank::Before;
            }
            if i == other.entries.len() {
                return Rank::After;
            }
            let x = &self.entries[i];
            let y = &other.entries[i];
            assert(a.skip(i as int)[0] == (x.0@, x.1@));
            assert(b.skip(i as int)[0] == (y.0@, y.1@));
            proof {
                let p = (x.0@, x.1@);
                <(String, String) as Key>::strict_order(p, p, p);
            }
            match x.rank(y) {
                Rank::Before => {
                    return Rank::Before;
                },
                Rank::After => {
                    return Rank::After;
                },
                Rank::Same => {
                    assert(a.skip(i as int).skip(1) == a.skip(i + 1));
                    assert(b.skip(i as int).skip(1) == b.skip(i + 1));
                    assert(a.take(i + 1) == a.take(i as int).push(a[i as int]));
                    assert(b.take(i + 1) == b.take(i as int).push(b[i as int]));
                    i += 1;
                },
            }
        }
    }
}

/// No labels.
pub open spec fn no_labels() -> Seq<Pair> {
    Seq::empty()
}

/// One label.
pub fn labels1(name: &str, value: &str) -> (r: Labels)
    ensures
        r@ == with_label(no_labels(), name@, value@),
{
    let mut labels = Labels::new();
    labels.insert(name.to_owned(), value.to_owned());
    labels
}

/// Two labels.
pub fn labels2(name: &str, value: &str, name2: &str, value2: &str) -> (r: Labels)
    ensures
        r@ == with_label(with_label(no_labels(), name@, value@), name2@, value2@),
{
    let mut labels = labels1(name, value);
    labels.insert(name2.to_owned(), value2.to_owned());
    labels
}

/// Three labels.
pub fn labels3(
    name: &str,
    value: &str,
    name2: &str,
    value2: &str,
    name3: &str,
    value3: &str,
) -> (r: Labels)
    ensures
        r@ == with_label(
            with_label(with_label(no_labels(), name@, value@), name2@, value2@),
            name3@,
            value3@,
        ),
{
    let mut labels = labels2(name, value, name2, value2);
    labels.insert(name3.to_owned(), value3.to_owned());
    labels
}

/// The labels but for one name.
pub open spec fn without_label(pairs: Seq<Pair>, name: Seq<char>) -> Seq<Pair> {
    pairs.filter(|p: Pair| p.0 != name)
}

/// A copy of the labels but for one name.
pub fn without(labels: &Labels, name: &str) -> (r: Labels)
    ensures
        r@ == without_label(labels@, name@),
{
    let ghost all = labels@;
    let ghost other = |p: Pair| p.0 != name@;
    let mut out: Labels = Labels::new();
    let count = labels.len();
    let mut i: usize = 0;
    proof {
        reveal(Seq::filter);
        assert(all.take(0) == Seq::<Pair>::empty());
    }
    while i < count
        invariant
            i <= count,
            count == all.len(),
            all == labels@,
            ascending(all),
            other == (|p: Pair| p.0 != name@),
            out@ == all.take(i as int).filter(other),
        decreases count - i,
    {
        let key = labels.key(i);
        let value = labels.value(i);
        let ghost kept = out@;
        proof {
            reveal(Seq::filter);
            assert(all.take(i + 1).drop_last() == all.take(i as int));
            assert(all.take(i + 1).last() == (key@, value@));
            if kept.len() > 0 {
                let last = kept[kept.len() - 1];
                assert(kept.contains(last));
                all.take(i as int).lemma_filter_contains_rev(other, last);
                let j = choose|j: int|
                    0 <= j < all.take(i as int).len() && all.take(i as int)[j] == last;
                assert(all[j] == last);
                assert(text_before(all[j].0, all[i as int].0));
                text_order(key@, key@, key@);
            }
        }
        if !crate::text::same(key.as_str(), name) {
            out.insert(key.clone(), value.clone());
            assert(out@ == kept.push((key@, value@)));
        }
        i += 1;
    }
    assert(all.take(i as int) == all);
    out
}

} // verus!
