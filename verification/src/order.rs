//! Total orders on keys, stable sorting and grouping by key.
use vstd::prelude::*;

verus! {

/// The outcome of comparing two keys.
#[derive(Clone, Copy, Debug, PartialEq, Eq, Structural)]
pub enum Rank {
    Before,
    Same,
    After,
}

/// A value that stands for a point of a strict total order.
pub trait Key: Sized {
    /// The mathematical value of a key.
    type Model;

    spec fn model(&self) -> Self::Model;

    spec fn precedes(a: Self::Model, b: Self::Model) -> bool;

    /// `precedes` is irreflexive, transitive and total.
    proof fn strict_order(a: Self::Model, b: Self::Model, c: Self::Model)
        ensures
            !Self::precedes(a, a),
            Self::precedes(a, b) && Self::precedes(b, c) ==> Self::precedes(a, c),
            a == b || Self::precedes(a, b) || Self::precedes(b, a),
    ;

    fn rank(&self, other: &Self) -> (r: Rank)
        ensures
            match r {
                Rank::Before => Self::precedes(self.model(), other.model()),
                Rank::Same => self.model() == other.model(),
                Rank::After => Self::precedes(other.model(), self.model()),
            },
    ;
}

impl Key for i64 {
    type Model = int;

    open spec fn model(&self) -> int {
        *self as int
    }

    open spec fn precedes(a: int, b: int) -> bool {
        a < b
    }

    proof fn strict_order(a: int, b: int, c: int) {
    }

    fn rank(&self, other: &i64) -> (r: Rank) {
        if *self < *other {
            Rank::Before
        } else if *self == *other {
            Rank::Same
        } else {
            Rank::After
        }
    }
}

impl Key for bool {
    type Model = bool;

    open spec fn model(&self) -> bool {
        *self
    }

    open spec fn precedes(a: bool, b: bool) -> bool {
        !a && b
    }

    proof fn strict_order(a: bool, b: bool, c: bool) {
    }

    fn rank(&self, other: &bool) -> (r: Rank) {
        if *self == *other {
            Rank::Same
        } else if *other {
            Rank::Before
        } else {
            Rank::After
        }
    }
}

/// Lexicographic order on sequences; a proper prefix comes first.
pub open spec fn lexicographic<M>(before: spec_fn(M, M) -> bool, a: Seq<M>, b: Seq<M>) -> bool
    decreases a.len(),
{
    if b.len() == 0 {
        false
    } else if a.len() == 0 {
        true
    } else if a[0] != b[0] {
        before(a[0], b[0])
    } else {
        lexicographic(before, a.skip(1), b.skip(1))
    }
}

/// `before` is irreflexive, transitive and total.
pub open spec fn strict_total<M>(before: spec_fn(M, M) -> bool) -> bool {
    &&& forall|a: M| !(#[trigger] before(a, a))
    &&& forall|a: M, b: M, c: M| #[trigger] before(a, b) && #[trigger] before(b, c) ==> before(a, c)
    &&& forall|a: M, b: M| a == b || #[trigger] before(a, b) || before(b, a)
}

/// A strict total order on elements makes a strict total order on sequences.
pub proof fn lexicographic_is_strict<M>(
    before: spec_fn(M, M) -> bool,
    a: Seq<M>,
    b: Seq<M>,
    c: Seq<M>,
)
    requires
        strict_total(before),
    ensures
        !lexicographic(before, a, a),
        lexicographic(before, a, b) && lexicographic(before, b, c) ==> lexicographic(before, a, c),
        a == b || lexicographic(before, a, b) || lexicographic(before, b, a),
    decreases a.len(),
{
    if a.len() > 0 {
        lexicographic_is_strict(before, a.skip(1), a.skip(1), a.skip(1));
        if b.len() > 0 {
            if c.len() > 0 {
                lexicographic_is_strict(before, a.skip(1), b.skip(1), c.skip(1));
            } else {
                lexicographic_is_strict(before, a.skip(1), b.skip(1), c);
            }
            if a[0] == b[0] && a.skip(1) == b.skip(1) {
                assert(a == seq![a[0]] + a.skip(1));
                assert(b == seq![b[0]] + b.skip(1));
            }
        }
    } else if b.len() == 0 {
        assert(a == b);
    }
}

pub open spec fn char_before() -> spec_fn(char, char) -> bool {
    |x: char, y: char| x < y
}

/// `a` comes before `b` in the order of code points, which is the order of UTF-8 bytes.
pub open spec fn text_before(a: Seq<char>, b: Seq<char>) -> bool {
    lexicographic(char_before(), a, b)
}

/// The order of texts is strict and total.
pub proof fn text_order(a: Seq<char>, b: Seq<char>, c: Seq<char>)
    ensures
        !text_before(a, a),
        text_before(a, b) && text_before(b, c) ==> text_before(a, c),
        a == b || text_before(a, b) || text_before(b, a),
{
    lexicographic_is_strict(char_before(), a, b, c);
}

pub fn text_rank(a: &str, b: &str) -> (r: Rank)
    ensures
        match r {
            Rank::Before => text_before(a@, b@),
            Rank::Same => a@ == b@,
            Rank::After => text_before(b@, a@),
        },
{
    let x = crate::text::chars_of(a);
    let y = crate::text::chars_of(b);
    let mut i: usize = 0;
    proof {
        assert(a@.skip(0) == a@);
        assert(b@.skip(0) == b@);
    }
    while i < x.len() && i < y.len() && x[i] == y[i]
        invariant
            x@ == a@,
            y@ == b@,
            i <= x.len(),
            i <= y.len(),
            text_before(a@, b@) == text_before(a@.skip(i as int), b@.skip(i as int)),
            text_before(b@, a@) == text_before(b@.skip(i as int), a@.skip(i as int)),
            a@.take(i as int) == b@.take(i as int),
        decreases x.len() - i,
    {
        proof {
            assert(a@.skip(i as int).skip(1) == a@.skip(i + 1));
            assert(b@.skip(i as int).skip(1) == b@.skip(i + 1));
            assert(a@.take(i + 1) == a@.take(i as int).push(a@[i as int]));
            assert(b@.take(i + 1) == b@.take(i as int).push(b@[i as int]));
        }
        i += 1;
    }
    if i == x.len() && i == y.len() {
        proof {
            assert(a@.take(i as int) == a@);
            assert(b@.take(i as int) == b@);
        }
        Rank::Same
    } else if i == x.len() {
        Rank::Before
    } else if i == y.len() {
        Rank::After
    } else if x[i] < y[i] {
        Rank::Before
    } else {
        assert(a@.skip(i as int)[0] == a@[i as int]);
        Rank::After
    }
}

impl Key for String {
    type Model = Seq<char>;

    open spec fn model(&self) -> Seq<char> {
        self@
    }

    open spec fn precedes(a: Seq<char>, b: Seq<char>) -> bool {
        text_before(a, b)
    }

    proof fn strict_order(a: Seq<char>, b: Seq<char>, c: Seq<char>) {
        text_order(a, b, c);
    }

    fn rank(&self, other: &String) -> (r: Rank) {
        text_rank(self.as_str(), other.as_str())
    }
}

/// Absent values come first.
impl<K: Key> Key for Option<K> {
    type Model = Option<K::Model>;

    open spec fn model(&self) -> Option<K::Model> {
        match self {
            Some(k) => Some(k.model()),
            None => None,
        }
    }

    open spec fn precedes(a: Option<K::Model>, b: Option<K::Model>) -> bool {
        match (a, b) {
            (None, Some(_)) => true,
            (Some(x), Some(y)) => K::precedes(x, y),
            _ => false,
        }
    }

    proof fn strict_order(a: Option<K::Model>, b: Option<K::Model>, c: Option<K::Model>) {
        if a is Some {
            K::strict_order(a->0, a->0, a->0);
            if b is Some {
                K::strict_order(a->0, b->0, b->0);
                if c is Some {
                    K::strict_order(a->0, b->0, c->0);
                }
            }
        }
    }

    fn rank(&self, other: &Option<K>) -> (r: Rank) {
        match (self, other) {
            (None, None) => Rank::Same,
            (None, Some(_)) => Rank::Before,
            (Some(_), None) => Rank::After,
            (Some(x), Some(y)) => x.rank(y),
        }
    }
}

/// Pairs are ordered by the first component, then by the second.
impl<A: Key, B: Key> Key for (A, B) {
    type Model = (A::Model, B::Model);

    open spec fn model(&self) -> (A::Model, B::Model) {
        (self.0.model(), self.1.model())
    }

    open spec fn precedes(a: (A::Model, B::Model), b: (A::Model, B::Model)) -> bool {
        A::precedes(a.0, b.0) || (a.0 == b.0 && B::precedes(a.1, b.1))
    }

    proof fn strict_order(
        a: (A::Model, B::Model),
        b: (A::Model, B::Model),
        c: (A::Model, B::Model),
    ) {
        A::strict_order(a.0, b.0, c.0);
        B::strict_order(a.1, b.1, c.1);
    }

    fn rank(&self, other: &(A, B)) -> (r: Rank) {
        match self.0.rank(&other.0) {
            Rank::Before => Rank::Before,
            Rank::After => Rank::After,
            Rank::Same => self.1.rank(&other.1),
        }
    }
}

/// Lists are ordered by their first element that differs; a proper prefix comes first.
impl<K: Key> Key for Vec<K> {
    type Model = Seq<K::Model>;

    open spec fn model(&self) -> Seq<K::Model> {
        models(self@)
    }

    open spec fn precedes(a: Seq<K::Model>, b: Seq<K::Model>) -> bool {
        lexicographic(key_before::<K>(), a, b)
    }

    proof fn strict_order(a: Seq<K::Model>, b: Seq<K::Model>, c: Seq<K::Model>) {
        let before = key_before::<K>();
        key_before_is_strict::<K>();
        assert forall|x: K::Model, y: K::Model| x == y || #[trigger] before(x, y) || before(y, x) by {
            K::strict_order(x, y, y);
        }
        lexicographic_is_strict(before, a, b, c);
    }

    fn rank(&self, other: &Vec<K>) -> (r: Rank) {
        let mut i: usize = 0;
        let ghost before = key_before::<K>();
        let ghost a = models(self@);
        let ghost b = models(other@);
        assert(a.skip(0) == a && b.skip(0) == b);
        loop
            invariant
                a == models(self@),
                b == models(other@),
                before == key_before::<K>(),
                i <= a.len(),
                i <= b.len(),
                a.take(i as int) == b.take(i as int),
                lexicographic(before, a, b) == lexicographic(
                    before,
                    a.skip(i as int),
                    b.skip(i as int),
                ),
                lexicographic(before, b, a) == lexicographic(
                    before,
                    b.skip(i as int),
                    a.skip(i as int),
                ),
            decreases a.len() - i,
        {
            if i == self.len() && i == other.len() {
                assert(a.take(i as int) == a && b.take(i as int) == b);
                return Rank::Same;
            }
            if i == self.len() {
                return Rank::Before;
            }
            if i == other.len() {
                return Rank::After;
            }
            let x = &self[i];
            let y = &other[i];
            assert(a.skip(i as int)[0] == x.model());
            assert(b.skip(i as int)[0] == y.model());
            proof {
                K::strict_order(x.model(), x.model(), x.model());
            }
            match x.rank(y) {
                Rank::Before => {
                    return Rank::Before;
                },
                Rank::After => {
                    return Rank::After;
                },
                Rank::Same => {
                    assert(a.skip(i as int).skip(1) == a.skip(i + 1));
                    assert(b.skip(i as int).skip(1) == b.skip(i + 1));
                    assert(a.take(i + 1) == a.take(i as int).push(a[i as int]));
                    assert(b.take(i + 1) == b.take(i as int).push(b[i as int]));
                    i += 1;
                },
            }
        }
    }
}

/// A key in the reverse order.
pub struct Reverse<K> {
    pub key: K,
}

impl<K: Key> Key for Reverse<K> {
    type Model = K::Model;

    open spec fn model(&self) -> K::Model {
        self.key.model()
    }

    open spec fn precedes(a: K::Model, b: K::Model) -> bool {
        K::precedes(b, a)
    }

    proof fn strict_order(a: K::Model, b: K::Model, c: K::Model) {
        K::strict_order(c, b, a);
        K::strict_order(a, b, c);
    }

    fn rank(&self, other: &Reverse<K>) -> (r: Rank) {
        match self.key.rank(&other.key) {
            Rank::Before => Rank::After,
            Rank::Same => Rank::Same,
            Rank::After => Rank::Before,
        }
    }
}

/// The mathematical values of `keys`.
pub open spec fn models<K: Key>(keys: Seq<K>) -> Seq<K::Model> {
    keys.map_values(|k: K| k.model())
}

/// Position `x` comes before position `y` in a stable sort by key.
pub open spec fn sorts_first<K: Key>(keys: Seq<K::Model>, x: int, y: int) -> bool {
    K::precedes(keys[x], keys[y]) || (keys[x] == keys[y] && x < y)
}

/// `order` lists every position of `keys` once, by key, and by position among equal keys.
pub open spec fn stable_order<K: Key>(keys: Seq<K::Model>, order: Seq<usize>) -> bool {
    &&& order.len() == keys.len()
    &&& forall|i: int| 0 <= i < order.len() ==> #[trigger] order[i] < keys.len()
    &&& forall|i: int, j: int|
        0 <= i < j < order.len() ==> #[trigger] sorts_first::<K>(
            keys,
            order[i] as int,
            order[j] as int,
        )
    &&& forall|x: usize| x < keys.len() ==> order.contains(x)
}

/// The part of a stable order that lists the positions from `lo` to `hi`.
spec fn stable_range<K: Key>(keys: Seq<K::Model>, lo: int, hi: int, order: Seq<usize>) -> bool {
    &&& order.len() == hi - lo
    &&& forall|i: int| 0 <= i < order.len() ==> lo <= #[trigger] order[i] < hi
    &&& forall|i: int, j: int|
        0 <= i < j < order.len() ==> #[trigger] sorts_first::<K>(
            keys,
            order[i] as int,
            order[j] as int,
        )
}

proof fn sorts_first_chain<K: Key>(keys: Seq<K::Model>, x: int, y: int, z: int)
    ensures
        sorts_first::<K>(keys, x, y) && sorts_first::<K>(keys, y, z) ==> sorts_first::<K>(
            keys,
            x,
            z,
        ),
        !sorts_first::<K>(keys, x, x),
{
    K::strict_order(keys[x], keys[y], keys[z]);
}

fn merge<K: Key>(
    keys: &Vec<K>,
    left: &Vec<usize>,
    right: &Vec<usize>,
    Ghost(lo): Ghost<int>,
    Ghost(mid): Ghost<int>,
    Ghost(hi): Ghost<int>,
) -> (out: Vec<usize>)
    requires
        0 <= lo <= mid <= hi <= keys.len(),
        stable_range::<K>(models(keys@), lo, mid, left@),
        stable_range::<K>(models(keys@), mid, hi, right@),
    ensures
        stable_range::<K>(models(keys@), lo, hi, out@),
{
    let ghost m = models(keys@);
    let mut out: Vec<usize> = Vec::new();
    let mut i: usize = 0;
    let mut j: usize = 0;
    while i < left.len() || j < right.len()
        invariant
            0 <= lo <= mid <= hi <= keys.len(),
            m == models(keys@),
            stable_range::<K>(m, lo, mid, left@),
            stable_range::<K>(m, mid, hi, right@),
            i <= left.len(),
            j <= right.len(),
            out.len() == i + j,
            forall|a: int| 0 <= a < out.len() ==> lo <= #[trigger] out[a] < hi,
            forall|a: int, b: int|
                0 <= a < b < out.len() ==> #[trigger] sorts_first::<K>(
                    m,
                    out[a] as int,
                    out[b] as int,
                ),
            forall|a: int, b: int|
                0 <= a < out.len() && i <= b < left.len() ==> #[trigger] sorts_first::<K>(
                    m,
                    out[a] as int,
                    left[b] as int,
                ),
            forall|a: int, b: int|
                0 <= a < out.len() && j <= b < right.len() ==> #[trigger] sorts_first::<K>(
                    m,
                    out[a] as int,
                    right[b] as int,
                ),
        decreases left.len() - i + right.len() - j,
    {
        let take_right = if i == left.len() {
            true
        } else if j == right.len() {
            false
        } else {
            match keys[right[j]].rank(&keys[left[i]]) {
                Rank::Before => true,
                _ => false,
            }
        };
        let ghost before = out@;
        if take_right {
            let x: usize = right[j];
            proof {
                assert forall|b: int| i <= b < left.len() implies #[trigger] sorts_first::<K>(
                    m,
                    x as int,
                    left[b] as int,
                ) by {
                    if b > i {
                        assert(sorts_first::<K>(m, left[i as int] as int, left[b] as int));
                        sorts_first_chain::<K>(m, x as int, left[i as int] as int, left[b] as int);
                    }
                }
            }
            out.push(x);
            j += 1;
        } else {
            let x: usize = left[i];
            proof {
                assert forall|b: int| j <= b < right.len() implies #[trigger] sorts_first::<K>(
                    m,
                    x as int,
                    right[b] as int,
                ) by {
                    assert(x < right[b]);
                    K::strict_order(m[x as int], m[right[j as int] as int], m[right[b] as int]);
                    if b > j {
                        assert(sorts_first::<K>(m, right[j as int] as int, right[b] as int));
                    }
                }
            }
            out.push(x);
            i += 1;
        }
        proof {
            assert forall|a: int, b: int| 0 <= a < b < out.len() implies #[trigger] sorts_first::<
                K,
            >(m, out[a] as int, out[b] as int) by {
                if b < before.len() {
                    assert(before[a] == out[a] && before[b] == out[b]);
                } else {
                    assert(before[a] == out[a]);
                }
            }
        }
    }
    out
}

fn sort_range<K: Key>(keys: &Vec<K>, lo: usize, hi: usize) -> (out: Vec<usize>)
    requires
        lo <= hi <= keys.len(),
    ensures
        stable_range::<K>(models(keys@), lo as int, hi as int, out@),
    decreases hi - lo,
{
    if hi - lo == 0 {
        Vec::new()
    } else if hi - lo == 1 {
        let mut out: Vec<usize> = Vec::new();
        out.push(lo);
        out
    } else {
        let mid: usize = lo + (hi - lo) / 2;
        let left = sort_range(keys, lo, mid);
        let right = sort_range(keys, mid, hi);
        merge(keys, &left, &right, Ghost(lo as int), Ghost(mid as int), Ghost(hi as int))
    }
}

proof fn covers_all(order: Seq<usize>, n: nat)
    requires
        order.len() == n,
        order.no_duplicates(),
        forall|i: int| 0 <= i < order.len() ==> #[trigger] order[i] < n,
    ensures
        forall|x: usize| x < n ==> order.contains(x),
{
    let ints = order.map_values(|x: usize| x as int);
    assert(ints.no_duplicates());
    ints.unique_seq_to_set();
    let all = vstd::set_lib::set_int_range(0, n as int);
    vstd::set_lib::lemma_int_range(0, n as int);
    assert(ints.to_set().subset_of(all));
    vstd::set_lib::lemma_subset_equality(ints.to_set(), all);
    assert forall|x: usize| x < n implies order.contains(x) by {
        assert(ints.to_set().contains(x as int));
        let i = choose|i: int| 0 <= i < ints.len() && ints[i] == x as int;
        assert(order[i] == x);
    }
}

/// The positions of `keys` in the order of a stable sort.
pub fn sort_positions<K: Key>(keys: &Vec<K>) -> (order: Vec<usize>)
    ensures
        stable_order::<K>(models(keys@), order@),
{
    let order = sort_range(keys, 0, keys.len());
    proof {
        let m = models(keys@);
        assert forall|i: int, j: int|
            0 <= i < order.len() && 0 <= j < order.len() && i != j implies order@[i]
            != order@[j] by {
            let a = if i < j { i } else { j };
            let b = if i < j { j } else { i };
            assert(sorts_first::<K>(m, order@[a] as int, order@[b] as int));
            sorts_first_chain::<K>(m, order@[a] as int, order@[b] as int, order@[a] as int);
        }
        covers_all(order@, keys@.len());
    }
    order
}

/// The positions at which `keys` holds `k`, in ascending order.
pub open spec fn positions<M>(keys: Seq<M>, k: M) -> Seq<int>
    decreases keys.len(),
{
    if keys.len() == 0 {
        Seq::empty()
    } else {
        let rest = positions(keys.drop_last(), k);
        if keys.last() == k {
            rest.push(keys.len() - 1)
        } else {
            rest
        }
    }
}

/// An ascending list of exactly the positions that hold `k` is `positions(keys, k)`.
pub proof fn positions_unique<M>(keys: Seq<M>, k: M, list: Seq<int>)
    requires
        forall|i: int, j: int| 0 <= i < j < list.len() ==> list[i] < list[j],
        forall|i: int| 0 <= i < list.len() ==> 0 <= #[trigger] list[i] < keys.len() && keys[list[i]] == k,
        forall|x: int| 0 <= x < keys.len() && keys[x] == k ==> list.contains(x),
    ensures
        list == positions(keys, k),
    decreases keys.len(),
{
    if keys.len() == 0 {
        if list.len() > 0 {
            assert(list[0] < 0);
        }
        assert(list == positions(keys, k));
    } else {
        let n = keys.len() - 1;
        if keys.last() == k {
            assert(list.contains(n));
            let at = choose|i: int| 0 <= i < list.len() && list[i] == n;
            assert(at == list.len() - 1) by {
                if at < list.len() - 1 {
                    assert(list[at] < list[list.len() - 1]);
                }
            }
            let rest = list.drop_last();
            assert forall|x: int| 0 <= x < n && keys.drop_last()[x] == k implies rest.contains(
                x,
            ) by {
                assert(list.contains(x));
                let i = choose|i: int| 0 <= i < list.len() && list[i] == x;
                assert(rest[i] == x);
            }
            assert forall|i: int| 0 <= i < rest.len() implies 0 <= #[trigger] rest[i] < n
                && keys.drop_last()[rest[i]] == k by {
                assert(list[i] < list[at]);
            }
            positions_unique(keys.drop_last(), k, rest);
            assert(list == rest.push(n));
        } else {
            assert forall|i: int| 0 <= i < list.len() implies 0 <= #[trigger] list[i] < n
                && keys.drop_last()[list[i]] == k by {
                assert(list[i] != n);
            }
            assert forall|x: int| 0 <= x < n && keys.drop_last()[x] == k implies list.contains(
                x,
            ) by {
                assert(keys[x] == k);
            }
            positions_unique(keys.drop_last(), k, list);
        }
    }
}

/// `positions(keys, k)` ascends and holds exactly the positions of `k`.
pub proof fn positions_hold<M>(keys: Seq<M>, k: M)
    ensures
        forall|i: int, j: int|
            0 <= i < j < positions(keys, k).len() ==> positions(keys, k)[i] < positions(keys, k)[j],
        forall|i: int|
            0 <= i < positions(keys, k).len() ==> 0 <= #[trigger] positions(keys, k)[i]
                < keys.len() && keys[positions(keys, k)[i]] == k,
        forall|x: int|
            0 <= x < keys.len() && keys[x] == k ==> #[trigger] positions(keys, k).contains(x),
    decreases keys.len(),
{
    if keys.len() > 0 {
        positions_hold(keys.drop_last(), k);
        let rest = positions(keys.drop_last(), k);
        let all = positions(keys, k);
        assert forall|x: int| 0 <= x < keys.len() && keys[x] == k implies #[trigger] all.contains(
            x,
        ) by {
            if x == keys.len() - 1 {
                assert(all[all.len() - 1] == x);
            } else {
                assert(keys.drop_last()[x] == k);
                assert(rest.contains(x));
                let i = choose|i: int| 0 <= i < rest.len() && rest[i] == x;
                assert(all[i] == x);
            }
        }
    }
}

/// The key that all positions of the group `g` hold.
pub open spec fn group_key<M>(keys: Seq<M>, g: Vec<usize>) -> M {
    keys[g@[0] as int]
}

/// The positions in `g`.
pub open spec fn group_positions(g: Vec<usize>) -> Seq<int> {
    g@.map_values(|x: usize| x as int)
}

/// `groups` splits the positions of `keys` by key: one group for each key that occurs, in the
/// order of the keys, each with the positions of its key in ascending order.
pub open spec fn grouping<K: Key>(keys: Seq<K::Model>, groups: Seq<Vec<usize>>) -> bool {
    &&& forall|g: int|
        0 <= g < groups.len() ==> (#[trigger] groups[g])@.len() > 0 && groups[g]@[0] < keys.len()
            && group_positions(groups[g]) == positions(keys, group_key(keys, groups[g]))
    &&& forall|g: int, h: int|
        0 <= g < h < groups.len() ==> K::precedes(
            group_key(keys, #[trigger] groups[g]),
            group_key(keys, #[trigger] groups[h]),
        )
    &&& forall|x: int| 0 <= x < keys.len() ==> has_group(keys, groups, #[trigger] keys[x])
}

/// Some group of `groups` is that of the key `k`.
pub open spec fn has_group<M>(keys: Seq<M>, groups: Seq<Vec<usize>>, k: M) -> bool {
    exists|g: int| 0 <= g < groups.len() && group_key(keys, #[trigger] groups[g]) == k
}

/// Groups the positions of `keys` by key.
pub fn group_by_key<K: Key>(keys: &Vec<K>) -> (groups: Vec<Vec<usize>>)
    ensures
        grouping::<K>(models(keys@), groups@),
{
    let order = sort_positions(keys);
    let ghost m = models(keys@);
    let mut groups: Vec<Vec<usize>> = Vec::new();
    let mut i: usize = 0;
    while i < order.len()
        invariant
            m == models(keys@),
            stable_order::<K>(m, order@),
            i <= order.len(),
            forall|g: int|
                0 <= g < groups.len() ==> (#[trigger] groups@[g])@.len() > 0 && groups@[g]@[0]
                    < m.len() && group_positions(groups@[g]) == positions(
                    m,
                    group_key(m, groups@[g]),
                ),
            forall|g: int, h: int|
                0 <= g < h < groups.len() ==> K::precedes(
                    group_key(m, #[trigger] groups@[g]),
                    group_key(m, #[trigger] groups@[h]),
                ),
            forall|a: int|
                0 <= a < i ==> exists|g: int|
                    0 <= g < groups.len() && group_key(m, #[trigger] groups@[g])
                        == m[#[trigger] order@[a] as int],
            forall|g: int, b: int|
                0 <= g < groups.len() && i <= b < order.len() ==> K::precedes(
                    group_key(m, #[trigger] groups@[g]),
                    m[#[trigger] order@[b] as int],
                ),
        decreases order.len() - i,
    {
        let start: usize = i;
        let ghost k = m[order@[start as int] as int];
        let mut g: Vec<usize> = Vec::new();
        g.push(order[i]);
        i += 1;
        while i < order.len() && matches!(keys[order[start]].rank(&keys[order[i]]), Rank::Same)
            invariant
                m == models(keys@),
                stable_order::<K>(m, order@),
                start < i <= order.len(),
                k == m[order@[start as int] as int],
                g@ == order@.subrange(start as int, i as int),
                forall|b: int| start <= b < i ==> m[#[trigger] order@[b] as int] == k,
            decreases order.len() - i,
        {
            g.push(order[i]);
            i += 1;
        }
        proof {
            let list = group_positions(g);
            assert forall|a: int, b: int| 0 <= a < b < list.len() implies list[a] < list[b] by {
                assert(sorts_first::<K>(m, order@[start + a] as int, order@[start + b] as int));
                K::strict_order(k, k, k);
            }
            // Every later position holds a later key.
            assert forall|b: int| i <= b < order.len() implies K::precedes(
                k,
                m[#[trigger] order@[b] as int],
            ) by {
                let next = m[order@[i as int] as int];
                assert(sorts_first::<K>(m, order@[start as int] as int, order@[i as int] as int));
                assert(K::precedes(k, next)) by {
                    if !K::precedes(k, next) {
                        assert(k == next);
                        K::strict_order(k, k, k);
                        assert(keys@[order@[start as int] as int].model() == k);
                        assert(keys@[order@[i as int] as int].model() == next);
                    }
                }
                if b > i {
                    assert(sorts_first::<K>(m, order@[i as int] as int, order@[b] as int));
                    K::strict_order(k, next, m[order@[b] as int]);
                }
            }
            assert forall|x: int| 0 <= x < m.len() && m[x] == k implies list.contains(x) by {
                assert(order@.contains(x as usize));
                let a = choose|a: int| 0 <= a < order.len() && order@[a] == x as usize;
                if a < start {
                    let h = choose|h: int|
                        0 <= h < groups.len() && group_key(m, #[trigger] groups@[h])
                            == m[order@[a] as int];
                    assert(K::precedes(group_key(m, groups@[h]), m[order@[start as int] as int]));
                    K::strict_order(k, k, k);
                } else if a >= i {
                    assert(K::precedes(k, m[order@[a] as int]));
                    K::strict_order(k, k, k);
                } else {
                    assert(list[a - start] == x);
                }
            }
            positions_unique(m, k, list);
        }
        let ghost before = groups@;
        groups.push(g);
        proof {
            assert(group_key(m, g) == k);
            assert(groups@[groups.len() - 1] == g);
            assert forall|a: int| 0 <= a < i implies exists|h: int|
                0 <= h < groups.len() && group_key(m, #[trigger] groups@[h])
                    == m[#[trigger] order@[a] as int] by {
                if a < start {
                    let h = choose|h: int|
                        0 <= h < before.len() && group_key(m, #[trigger] before[h])
                            == m[order@[a] as int];
                    assert(groups@[h] == before[h]);
                } else {
                    assert(group_key(m, groups@[groups.len() - 1]) == m[order@[a] as int]);
                }
            }
            assert forall|p: int, h: int| 0 <= p < h < groups.len() implies K::precedes(
                group_key(m, #[trigger] groups@[p]),
                group_key(m, #[trigger] groups@[h]),
            ) by {
                assert(groups@[p] == before[p]);
                if h < before.len() {
                    assert(groups@[h] == before[h]);
                } else {
                    assert(K::precedes(group_key(m, before[p]), m[order@[start as int] as int]));
                }
            }
            assert forall|p: int, b: int|
                0 <= p < groups.len() && i <= b < order.len() implies K::precedes(
                group_key(m, #[trigger] groups@[p]),
                m[#[trigger] order@[b] as int],
            ) by {
                if p < before.len() {
                    assert(groups@[p] == before[p]);
                }
            }
        }
    }
    proof {
        assert forall|x: int| 0 <= x < m.len() implies has_group(m, groups@, #[trigger] m[x]) by {
            assert(order@.contains(x as usize));
            let a = choose|a: int| 0 <= a < order.len() && order@[a] == x as usize;
            assert(m[order@[a] as int] == m[x]);
        }
        assert(grouping::<K>(m, groups@));
    }
    groups
}

/// Selecting the elements whose key is `k` takes the elements at the positions of `k`.
pub proof fn filter_by_key<T, M>(items: Seq<T>, key: spec_fn(T) -> M, k: M)
    ensures
        items.filter(|x: T| key(x) == k) == positions(items.map_values(key), k).map_values(
            |i: int| items[i],
        ),
    decreases items.len(),
{
    reveal(Seq::filter);
    let keys = items.map_values(key);
    if items.len() > 0 {
        filter_by_key(items.drop_last(), key, k);
        positions_hold(keys.drop_last(), k);
        assert(keys.drop_last() == items.drop_last().map_values(key));
        let rest = positions(keys.drop_last(), k);
        assert(rest.map_values(|i: int| items.drop_last()[i]) == rest.map_values(
            |i: int| items[i],
        ));
        assert(rest.push(items.len() - 1).map_values(|i: int| items[i]) == rest.map_values(
            |i: int| items[i],
        ).push(items.last()));
    }
}

/// `before` holds of every two elements of `a`, the earlier one first.
pub open spec fn ascends<M>(before: spec_fn(M, M) -> bool, a: Seq<M>) -> bool {
    forall|i: int, j: int| 0 <= i < j < a.len() ==> #[trigger] before(a[i], a[j])
}

/// Two sequences with the same elements that ascend in the same strict order are equal.
pub proof fn ascending_is_unique<M>(before: spec_fn(M, M) -> bool, a: Seq<M>, b: Seq<M>)
    requires
        forall|x: M| !(#[trigger] before(x, x)),
        forall|x: M, y: M, z: M| #[trigger] before(x, y) && #[trigger] before(y, z) ==> before(x, z),
        ascends(before, a),
        ascends(before, b),
        forall|x: M| #[trigger] a.contains(x) <==> b.contains(x),
    ensures
        a == b,
    decreases a.len(),
{
    if a.len() == 0 {
        if b.len() > 0 {
            assert(b.contains(b[0]));
            assert(a.contains(b[0]));
        }
        assert(a == b);
    } else {
        assert(a.contains(a[0]));
        assert(b.contains(a[0]));
        assert(b.len() > 0);
        let x = a.last();
        let y = b.last();
        assert(a.contains(x) && b.contains(y));
        assert(b.contains(x) && a.contains(y));
        let i = choose|i: int| 0 <= i < b.len() && b[i] == x;
        let j = choose|j: int| 0 <= j < a.len() && a[j] == y;
        if i < b.len() - 1 {
            assert(before(b[i], b[b.len() - 1]));
            if j < a.len() - 1 {
                assert(before(a[j], a[a.len() - 1]));
            }
        }
        assert(x == y);
        let c = a.drop_last();
        let d = b.drop_last();
        assert forall|i: int, j: int| 0 <= i < j < c.len() implies #[trigger] before(c[i], c[j]) by {
            assert(before(a[i], a[j]));
        }
        assert forall|i: int, j: int| 0 <= i < j < d.len() implies #[trigger] before(d[i], d[j]) by {
            assert(before(b[i], b[j]));
        }
        assert forall|z: M| #[trigger] c.contains(z) <==> d.contains(z) by {
            if c.contains(z) {
                let p = choose|p: int| 0 <= p < c.len() && c[p] == z;
                assert(a[p] == z);
                assert(a.contains(z));
                assert(b.contains(z));
                let q = choose|q: int| 0 <= q < b.len() && b[q] == z;
                if q == b.len() - 1 {
                    assert(before(a[p], a[a.len() - 1]));
                }
                assert(d[q] == z);
            }
            if d.contains(z) {
                let p = choose|p: int| 0 <= p < d.len() && d[p] == z;
                assert(b[p] == z);
                assert(b.contains(z));
                assert(a.contains(z));
                let q = choose|q: int| 0 <= q < a.len() && a[q] == z;
                if q == a.len() - 1 {
                    assert(before(b[p], b[b.len() - 1]));
                }
                assert(c[q] == z);
            }
        }
        ascending_is_unique(before, c, d);
        assert(a == c.push(x));
        assert(b == d.push(y));
    }
}

pub open spec fn key_before<K: Key>() -> spec_fn(K::Model, K::Model) -> bool {
    |a: K::Model, b: K::Model| K::precedes(a, b)
}

/// `k` inserted among ascending keys, where it is not one of them already.
pub open spec fn insert_key<K: Key>(sorted: Seq<K::Model>, k: K::Model) -> Seq<K::Model>
    decreases sorted.len(),
{
    if sorted.len() == 0 {
        seq![k]
    } else if sorted.last() == k {
        sorted
    } else if K::precedes(sorted.last(), k) {
        sorted.push(k)
    } else {
        insert_key::<K>(sorted.drop_last(), k).push(sorted.last())
    }
}

/// The keys that occur in `keys`, each once, in their order.
pub open spec fn distinct_sorted<K: Key>(keys: Seq<K::Model>) -> Seq<K::Model>
    decreases keys.len(),
{
    if keys.len() == 0 {
        Seq::empty()
    } else {
        insert_key::<K>(distinct_sorted::<K>(keys.drop_last()), keys.last())
    }
}

proof fn insert_key_holds<K: Key>(sorted: Seq<K::Model>, k: K::Model)
    requires
        ascends(key_before::<K>(), sorted),
    ensures
        ascends(key_before::<K>(), insert_key::<K>(sorted, k)),
        forall|x: K::Model| #[trigger]
            insert_key::<K>(sorted, k).contains(x) <==> x == k || sorted.contains(x),
    decreases sorted.len(),
{
    let before = key_before::<K>();
    let out = insert_key::<K>(sorted, k);
    if sorted.len() == 0 {
        assert(out[0] == k);
    } else {
        let rest = sorted.drop_last();
        let last = sorted.last();
        assert forall|i: int, j: int| 0 <= i < j < rest.len() implies #[trigger] before(
            rest[i],
            rest[j],
        ) by {
            assert(before(sorted[i], sorted[j]));
        }
        if last == k {
            assert(sorted[sorted.len() - 1] == k);
        } else if K::precedes(last, k) {
            assert forall|i: int, j: int| 0 <= i < j < out.len() implies #[trigger] before(
                out[i],
                out[j],
            ) by {
                if j == sorted.len() {
                    if i < sorted.len() - 1 {
                        assert(before(sorted[i], sorted[sorted.len() - 1]));
                        K::strict_order(sorted[i], last, k);
                    }
                } else {
                    assert(before(sorted[i], sorted[j]));
                }
            }
            assert(out[out.len() - 1] == k);
            assert forall|x: K::Model| #[trigger] out.contains(x) <==> x == k || sorted.contains(
                x,
            ) by {
                if sorted.contains(x) {
                    let i = choose|i: int| 0 <= i < sorted.len() && sorted[i] == x;
                    assert(out[i] == x);
                }
            }
        } else {
            insert_key_holds::<K>(rest, k);
            let inner = insert_key::<K>(rest, k);
            K::strict_order(last, k, k);
            assert forall|i: int, j: int| 0 <= i < j < out.len() implies #[trigger] before(
                out[i],
                out[j],
            ) by {
                if j == out.len() - 1 {
                    assert(inner.contains(inner[i]));
                    if inner[i] != k {
                        let p = choose|p: int| 0 <= p < rest.len() && rest[p] == inner[i];
                        assert(before(sorted[p], sorted[sorted.len() - 1]));
                    }
                } else {
                    assert(before(inner[i], inner[j]));
                }
            }
            assert forall|x: K::Model| #[trigger] out.contains(x) <==> x == k || sorted.contains(
                x,
            ) by {
                if x == k || sorted.contains(x) {
                    if x == last {
                        assert(out[out.len() - 1] == x);
                    } else {
                        if x != k {
                            let i = choose|i: int| 0 <= i < sorted.len() && sorted[i] == x;
                            assert(rest[i] == x);
                        }
                        assert(inner.contains(x));
                        let i = choose|i: int| 0 <= i < inner.len() && inner[i] == x;
                        assert(out[i] == x);
                    }
                }
                if out.contains(x) {
                    let i = choose|i: int| 0 <= i < out.len() && out[i] == x;
                    if i == out.len() - 1 {
                        assert(sorted[sorted.len() - 1] == x);
                    } else {
                        assert(inner.contains(x));
                        if x != k {
                            let p = choose|p: int| 0 <= p < rest.len() && rest[p] == x;
                            assert(sorted[p] == x);
                        }
                    }
                }
            }
        }
    }
}

/// `distinct_sorted` ascends and holds exactly the keys that occur.
pub proof fn distinct_sorted_holds<K: Key>(keys: Seq<K::Model>)
    ensures
        ascends(key_before::<K>(), distinct_sorted::<K>(keys)),
        forall|x: K::Model| #[trigger]
            distinct_sorted::<K>(keys).contains(x) <==> keys.contains(x),
    decreases keys.len(),
{
    if keys.len() > 0 {
        let rest = keys.drop_last();
        distinct_sorted_holds::<K>(rest);
        insert_key_holds::<K>(distinct_sorted::<K>(rest), keys.last());
        assert forall|x: K::Model| #[trigger] distinct_sorted::<K>(keys).contains(
            x,
        ) <==> keys.contains(x) by {
            if keys.contains(x) {
                let i = choose|i: int| 0 <= i < keys.len() && keys[i] == x;
                if i < rest.len() {
                    assert(rest[i] == x);
                    assert(rest.contains(x));
                }
            }
            if x == keys.last() {
                assert(keys[keys.len() - 1] == x);
            }
            if rest.contains(x) {
                let i = choose|i: int| 0 <= i < rest.len() && rest[i] == x;
                assert(keys[i] == x);
            }
        }
    }
}

/// The order of keys is irreflexive and transitive.
pub proof fn key_before_is_strict<K: Key>()
    ensures
        forall|x: K::Model| !(#[trigger] key_before::<K>()(x, x)),
        forall|x: K::Model, y: K::Model, z: K::Model| #[trigger]
            key_before::<K>()(x, y) && #[trigger] key_before::<K>()(y, z) ==> key_before::<K>()(
                x,
                z,
            ),
{
    let before = key_before::<K>();
    assert forall|x: K::Model| !(#[trigger] before(x, x)) by {
        K::strict_order(x, x, x);
    }
    assert forall|x: K::Model, y: K::Model, z: K::Model| #[trigger] before(x, y)
        && #[trigger] before(y, z) implies before(x, z) by {
        K::strict_order(x, y, z);
    }
}

/// The keys of the groups, in their order.
pub open spec fn group_keys<M>(keys: Seq<M>, groups: Seq<Vec<usize>>) -> Seq<M> {
    groups.map_values(|g: Vec<usize>| group_key(keys, g))
}

/// The groups are those of the distinct keys in their order.
pub proof fn grouping_keys<K: Key>(keys: Seq<K::Model>, groups: Seq<Vec<usize>>)
    requires
        grouping::<K>(keys, groups),
    ensures
        group_keys(keys, groups) == distinct_sorted::<K>(keys),
{
    let a = group_keys(keys, groups);
    let b = distinct_sorted::<K>(keys);
    let before = key_before::<K>();
    key_before_is_strict::<K>();
    distinct_sorted_holds::<K>(keys);
    assert forall|i: int, j: int| 0 <= i < j < a.len() implies #[trigger] before(a[i], a[j]) by {
        assert(K::precedes(group_key(keys, groups[i]), group_key(keys, groups[j])));
    }
    assert forall|x: K::Model| #[trigger] a.contains(x) <==> b.contains(x) by {
        if a.contains(x) {
            let i = choose|i: int| 0 <= i < a.len() && a[i] == x;
            assert(groups[i]@.len() > 0);
            assert(keys[groups[i]@[0] as int] == x);
            assert(keys.contains(x));
        }
        if b.contains(x) {
            assert(keys.contains(x));
            let i = choose|i: int| 0 <= i < keys.len() && keys[i] == x;
            assert(has_group(keys, groups, keys[i]));
            let g = choose|g: int|
                0 <= g < groups.len() && group_key(keys, #[trigger] groups[g]) == x;
            assert(a[g] == x);
        }
    }
    ascending_is_unique(before, a, b);
}

/// `x` inserted among `sorted` after every element whose key is not after its own.
pub open spec fn insert_item<T, K: Key>(
    sorted: Seq<T>,
    key: spec_fn(T) -> K::Model,
    x: T,
) -> Seq<T>
    decreases sorted.len(),
{
    if sorted.len() > 0 && K::precedes(key(x), key(sorted.last())) {
        insert_item::<T, K>(sorted.drop_last(), key, x).push(sorted.last())
    } else {
        sorted.push(x)
    }
}

/// `items` in the order of their keys; items with equal keys keep their order.
pub open spec fn stable_sorted<T, K: Key>(items: Seq<T>, key: spec_fn(T) -> K::Model) -> Seq<T>
    decreases items.len(),
{
    if items.len() == 0 {
        Seq::empty()
    } else {
        insert_item::<T, K>(stable_sorted::<T, K>(items.drop_last(), key), key, items.last())
    }
}

spec fn first_by<K: Key>(keys: Seq<K::Model>) -> spec_fn(int, int) -> bool {
    |x: int, y: int| sorts_first::<K>(keys, x, y)
}

proof fn insert_position_holds<K: Key>(keys: Seq<K::Model>, sorted: Seq<int>, x: int)
    requires
        ascends(first_by::<K>(keys), sorted),
        forall|i: int| 0 <= i < sorted.len() ==> #[trigger] sorted[i] < x,
    ensures
        ({
            let out = insert_item::<int, K>(sorted, |i: int| keys[i], x);
            &&& ascends(first_by::<K>(keys), out)
            &&& forall|y: int| #[trigger] out.contains(y) <==> y == x || sorted.contains(y)
        }),
    decreases sorted.len(),
{
    let key = |i: int| keys[i];
    let before = first_by::<K>(keys);
    let out = insert_item::<int, K>(sorted, key, x);
    if sorted.len() > 0 && K::precedes(key(x), key(sorted.last())) {
        let rest = sorted.drop_last();
        let last = sorted.last();
        assert forall|i: int, j: int| 0 <= i < j < rest.len() implies #[trigger] before(
            rest[i],
            rest[j],
        ) by {
            assert(before(sorted[i], sorted[j]));
        }
        assert forall|i: int| 0 <= i < rest.len() implies #[trigger] rest[i] < x by {
            assert(sorted[i] < x);
        }
        insert_position_holds::<K>(keys, rest, x);
        let inner = insert_item::<int, K>(rest, key, x);
        assert forall|i: int, j: int| 0 <= i < j < out.len() implies #[trigger] before(
            out[i],
            out[j],
        ) by {
            if j == out.len() - 1 {
                assert(inner.contains(inner[i]));
                if inner[i] != x {
                    let p = choose|p: int| 0 <= p < rest.len() && rest[p] == inner[i];
                    assert(before(sorted[p], sorted[sorted.len() - 1]));
                }
            } else {
                assert(before(inner[i], inner[j]));
            }
        }
        assert forall|y: int| #[trigger] out.contains(y) <==> y == x || sorted.contains(y) by {
            if y == last {
                assert(out[out.len() - 1] == y);
                assert(sorted[sorted.len() - 1] == y);
            } else {
                if inner.contains(y) {
                    let i = choose|i: int| 0 <= i < inner.len() && inner[i] == y;
                    assert(out[i] == y);
                }
                if out.contains(y) {
                    let i = choose|i: int| 0 <= i < out.len() && out[i] == y;
                    assert(inner[i] == y);
                    assert(inner.contains(y));
                }
                if sorted.contains(y) {
                    let i = choose|i: int| 0 <= i < sorted.len() && sorted[i] == y;
                    assert(rest[i] == y);
                    assert(rest.contains(y));
                }
                if rest.contains(y) {
                    let i = choose|i: int| 0 <= i < rest.len() && rest[i] == y;
                    assert(sorted[i] == y);
                }
            }
        }
    } else {
        assert forall|i: int, j: int| 0 <= i < j < out.len() implies #[trigger] before(
            out[i],
            out[j],
        ) by {
            if j == sorted.len() {
                let last = sorted.last();
                assert(sorted[sorted.len() - 1] < x);
                K::strict_order(keys[x], keys[last], keys[x]);
                assert(before(last, x));
                if i < sorted.len() - 1 {
                    assert(before(sorted[i], sorted[sorted.len() - 1]));
                    sorts_first_chain::<K>(keys, sorted[i], last, x);
                }
            } else {
                assert(before(sorted[i], sorted[j]));
            }
        }
        assert forall|y: int| #[trigger] out.contains(y) <==> y == x || sorted.contains(y) by {
            if y == x {
                assert(out[out.len() - 1] == y);
            }
            if sorted.contains(y) {
                let i = choose|i: int| 0 <= i < sorted.len() && sorted[i] == y;
                assert(out[i] == y);
            }
        }
    }
}

spec fn count_up(n: nat) -> Seq<int> {
    Seq::new(n, |i: int| i)
}

proof fn sorted_positions_hold<K: Key>(keys: Seq<K::Model>, n: nat)
    requires
        n <= keys.len(),
    ensures
        ({
            let out = stable_sorted::<int, K>(count_up(n), |i: int| keys[i]);
            &&& ascends(first_by::<K>(keys), out)
            &&& forall|y: int| #[trigger] out.contains(y) <==> 0 <= y < n
        }),
    decreases n,
{
    let key = |i: int| keys[i];
    if n > 0 {
        let m = (n - 1) as nat;
        sorted_positions_hold::<K>(keys, m);
        assert(count_up(n).drop_last() == count_up(m));
        let inner = stable_sorted::<int, K>(count_up(m), key);
        assert forall|i: int| 0 <= i < inner.len() implies #[trigger] inner[i] < n - 1 by {
            assert(inner.contains(inner[i]));
        }
        insert_position_holds::<K>(keys, inner, n - 1);
    }
}

proof fn insert_item_maps<T, K: Key>(
    items: Seq<T>,
    key: spec_fn(T) -> K::Model,
    sorted: Seq<int>,
    x: int,
)
    ensures
        insert_item::<int, K>(sorted, |i: int| key(items[i]), x).map_values(|i: int| items[i])
            == insert_item::<T, K>(sorted.map_values(|i: int| items[i]), key, items[x]),
    decreases sorted.len(),
{
    let pos = |i: int| key(items[i]);
    let at = |i: int| items[i];
    let s = sorted.map_values(at);
    if sorted.len() > 0 && K::precedes(pos(x), pos(sorted.last())) {
        insert_item_maps::<T, K>(items, key, sorted.drop_last(), x);
        assert(s.drop_last() == sorted.drop_last().map_values(at));
        let inner = insert_item::<int, K>(sorted.drop_last(), pos, x);
        assert(inner.push(sorted.last()).map_values(at) == inner.map_values(at).push(s.last()));
    } else {
        assert(sorted.push(x).map_values(at) == s.push(items[x]));
    }
}

proof fn stable_sorted_maps<T, K: Key>(items: Seq<T>, key: spec_fn(T) -> K::Model, n: nat)
    requires
        n <= items.len(),
    ensures
        stable_sorted::<int, K>(count_up(n), |i: int| key(items[i])).map_values(
            |i: int| items[i],
        ) == stable_sorted::<T, K>(items.take(n as int), key),
    decreases n,
{
    let pos = |i: int| key(items[i]);
    let at = |i: int| items[i];
    if n > 0 {
        let m = (n - 1) as nat;
        stable_sorted_maps::<T, K>(items, key, m);
        assert(count_up(n).drop_last() == count_up(m));
        assert(items.take(n as int).drop_last() == items.take(m as int));
        insert_item_maps::<T, K>(
            items,
            key,
            stable_sorted::<int, K>(count_up(m), pos),
            n - 1,
        );
    } else {
        assert(stable_sorted::<int, K>(count_up(n), pos).map_values(at) == Seq::<T>::empty());
    }
}

/// Taking the items in a stable order of their keys is sorting them.
pub proof fn stable_order_sorts<T, K: Key>(
    items: Seq<T>,
    key: spec_fn(T) -> K::Model,
    order: Seq<usize>,
)
    requires
        stable_order::<K>(items.map_values(key), order),
        items.len() <= usize::MAX,
    ensures
        order.map_values(|i: usize| items[i as int]) == stable_sorted::<T, K>(items, key),
{
    let keys = items.map_values(key);
    let n = items.len();
    let a = order.map_values(|i: usize| i as int);
    let by = |i: int| keys[i];
    let pos = |i: int| key(items[i]);
    let b = stable_sorted::<int, K>(count_up(n), by);
    let before = first_by::<K>(keys);
    sorted_positions_hold::<K>(keys, n);
    assert forall|x: int| !(#[trigger] before(x, x)) by {
        sorts_first_chain::<K>(keys, x, x, x);
    }
    assert forall|x: int, y: int, z: int| #[trigger] before(x, y) && #[trigger] before(
        y,
        z,
    ) implies before(x, z) by {
        sorts_first_chain::<K>(keys, x, y, z);
    }
    assert forall|i: int, j: int| 0 <= i < j < a.len() implies #[trigger] before(a[i], a[j]) by {
        assert(sorts_first::<K>(keys, order[i] as int, order[j] as int));
    }
    assert forall|x: int| #[trigger] a.contains(x) <==> b.contains(x) by {
        if a.contains(x) {
            let i = choose|i: int| 0 <= i < a.len() && a[i] == x;
            assert(order[i] < keys.len());
        }
        if b.contains(x) {
            assert(order.contains(x as usize));
            let i = choose|i: int| 0 <= i < order.len() && order[i] == x as usize;
            assert(a[i] == x);
        }
    }
    ascending_is_unique(before, a, b);
    sorts_alike::<K>(keys, items.len(), by, pos);
    stable_sorted_maps::<T, K>(items, key, n);
    assert(items.take(n as int) == items);
    assert(order.map_values(|i: usize| items[i as int]) == a.map_values(|i: int| items[i]));
}

proof fn sorts_alike<K: Key>(
    keys: Seq<K::Model>,
    n: nat,
    a: spec_fn(int) -> K::Model,
    b: spec_fn(int) -> K::Model,
)
    requires
        n <= keys.len(),
        forall|i: int| 0 <= i < keys.len() ==> #[trigger] a(i) == b(i),
        forall|i: int| #[trigger] a(i) == keys[i],
    ensures
        stable_sorted::<int, K>(count_up(n), a) == stable_sorted::<int, K>(count_up(n), b),
    decreases n,
{
    if n > 0 {
        let m = (n - 1) as nat;
        sorts_alike::<K>(keys, m, a, b);
        assert(count_up(n).drop_last() == count_up(m));
        let inner = stable_sorted::<int, K>(count_up(m), a);
        sorted_positions_hold::<K>(keys, m);
        assert(a =~= (|i: int| keys[i]));
        assert forall|i: int| 0 <= i < inner.len() implies 0 <= #[trigger] inner[i] < n - 1 by {
            assert(inner.contains(inner[i]));
        }
        inserts_alike::<K>(inner, a, b, n - 1);
    }
}

proof fn inserts_alike<K: Key>(
    sorted: Seq<int>,
    a: spec_fn(int) -> K::Model,
    b: spec_fn(int) -> K::Model,
    x: int,
)
    requires
        forall|i: int| 0 <= i < sorted.len() ==> a(#[trigger] sorted[i]) == b(sorted[i]),
        a(x) == b(x),
    ensures
        insert_item::<int, K>(sorted, a, x) == insert_item::<int, K>(sorted, b, x),
    decreases sorted.len(),
{
    if sorted.len() > 0 {
        assert(a(sorted[sorted.len() - 1]) == b(sorted[sorted.len() - 1]));
        if K::precedes(a(x), a(sorted.last())) {
            assert forall|i: int| 0 <= i < sorted.drop_last().len() implies a(
                #[trigger] sorted.drop_last()[i],
            ) == b(sorted.drop_last()[i]) by {
                assert(a(sorted[i]) == b(sorted[i]));
            }
            inserts_alike::<K>(sorted.drop_last(), a, b, x);
        }
    }
}

proof fn insert_item_through<T, U, K: Key>(
    sorted: Seq<T>,
    view: spec_fn(T) -> U,
    key: spec_fn(U) -> K::Model,
    x: T,
)
    ensures
        insert_item::<T, K>(sorted, |t: T| key(view(t)), x).map_values(view) == insert_item::<
            U,
            K,
        >(sorted.map_values(view), key, view(x)),
    decreases sorted.len(),
{
    let through = |t: T| key(view(t));
    let s = sorted.map_values(view);
    if sorted.len() > 0 && K::precedes(through(x), through(sorted.last())) {
        insert_item_through::<T, U, K>(sorted.drop_last(), view, key, x);
        assert(s.drop_last() == sorted.drop_last().map_values(view));
        let inner = insert_item::<T, K>(sorted.drop_last(), through, x);
        assert(inner.push(sorted.last()).map_values(view) == inner.map_values(view).push(s.last()));
    } else {
        assert(sorted.push(x).map_values(view) == s.push(view(x)));
    }
}

/// Sorting values by a key of their views sorts the views.
pub proof fn stable_sorted_through<T, U, K: Key>(
    items: Seq<T>,
    view: spec_fn(T) -> U,
    key: spec_fn(U) -> K::Model,
)
    ensures
        stable_sorted::<T, K>(items, |t: T| key(view(t))).map_values(view) == stable_sorted::<
            U,
            K,
        >(items.map_values(view), key),
    decreases items.len(),
{
    let through = |t: T| key(view(t));
    if items.len() > 0 {
        stable_sorted_through::<T, U, K>(items.drop_last(), view, key);
        assert(items.map_values(view).drop_last() == items.drop_last().map_values(view));
        insert_item_through::<T, U, K>(
            stable_sorted::<T, K>(items.drop_last(), through),
            view,
            key,
            items.last(),
        );
    } else {
        assert(stable_sorted::<T, K>(items, through).map_values(view) == stable_sorted::<U, K>(
            items.map_values(view),
            key,
        ));
    }
}

} // verus!
