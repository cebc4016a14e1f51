//! What changed between two runs.
use crate::clock::{optional_rfc3339, rfc3339, time_text, to_rfc3339};
use crate::coverage::{coverage_views, CoverageSummary, CoverageView};
use crate::join::{both_views, joins_lose_no_key, pair_up, pairs_of, pairs_through, sort_by_keys};
use crate::labels::{lookup, Counts, TextMap};
use crate::model::{on_calendar, RunManifest, Transition, TransitionView};
use crate::number::{apply, arithmetic, is_arithmetic, Number, Op};
use crate::order::{distinct_sorted, models, stable_sorted, stable_sorted_through, Key, Reverse};
use crate::report::{
    host_views, query_views, route_views, shortened, symbol_views, text_option, CpuSummary,
    DatabaseSummary, HostSummary, HostView, HttpRouteSummary, QueryKey, QueryKeyModel, QueryView,
    RouteView, RunDiagnostics, SymbolView,
};
use crate::text::{same, texts};
use vstd::prelude::*;

verus! {

/// The rows of a section that a comparison shows.
pub const COMPACT_LIMIT: usize = 20;

#[derive(Clone, Copy, Debug, PartialEq, Eq, Structural)]
pub enum Presence {
    Both,
    Added,
    Removed,
}

impl Presence {
    pub open spec fn name(self) -> Seq<char> {
        match self {
            Presence::Both => "both"@,
            Presence::Added => "added"@,
            Presence::Removed => "removed"@,
        }
    }

    pub fn as_str(self) -> (r: &'static str)
        ensures
            r@ == self.name(),
    {
        match self {
            Presence::Both => "both",
            Presence::Added => "added",
            Presence::Removed => "removed",
        }
    }
}

/// A number before and after, with what changed.
#[derive(Clone, Copy, Debug, PartialEq, Eq, Structural)]
pub struct NumericDiff {
    pub base: Option<Number>,
    pub candidate: Option<Number>,
    pub delta: Option<Number>,
    pub delta_percent: Option<Number>,
}

impl View for NumericDiff {
    type V = NumericDiff;

    open spec fn view(&self) -> NumericDiff {
        *self
    }
}

/// The difference, and the difference in percent of a base other than zero, where there are both
/// numbers.
pub open spec fn difference(
    f: spec_fn(Op) -> Number,
    base: Option<Number>,
    candidate: Option<Number>,
) -> NumericDiff {
    let both = base is Some && candidate is Some;
    let change = f(Op::Subtract(candidate->0, base->0));
    NumericDiff {
        base,
        candidate,
        delta: if both {
            Some(change)
        } else {
            None
        },
        delta_percent: if both && !base->0.is_zero_spec() {
            Some(f(Op::Multiply(f(Op::Divide(change, base->0)), f(Op::Integer(100)))))
        } else {
            None
        },
    }
}

impl NumericDiff {
    pub fn new<F: Fn(Op) -> Number>(
        base: Option<Number>,
        candidate: Option<Number>,
        compute: &F,
    ) -> (r: NumericDiff)
        requires
            is_arithmetic(*compute),
        ensures
            r == difference(arithmetic(*compute), base, candidate),
    {
        match (base, candidate) {
            (Some(b), Some(c)) => {
                let change = apply(compute, Op::Subtract(c, b));
                let delta_percent = if b.is_zero() {
                    None
                } else {
                    let ratio = apply(compute, Op::Divide(change, b));
                    let hundred = apply(compute, Op::Integer(100));
                    Some(apply(compute, Op::Multiply(ratio, hundred)))
                };
                NumericDiff { base, candidate, delta: Some(change), delta_percent }
            },
            _ => NumericDiff { base, candidate, delta: None, delta_percent: None },
        }
    }

    /// How far the number changed, or how large it is where only one side has it.
    pub open spec fn size(self) -> Number {
        let number = if self.delta is Some {
            self.delta
        } else if self.candidate is Some {
            self.candidate
        } else {
            self.base
        };
        match number {
            Some(n) => n.abs_spec(),
            None => Number::zero_spec(),
        }
    }

    pub fn magnitude(&self) -> (r: Number)
        ensures
            r == self.size(),
    {
        let number = if self.delta.is_some() {
            self.delta
        } else if self.candidate.is_some() {
            self.candidate
        } else {
            self.base
        };
        match number {
            Some(n) => n.abs(),
            None => Number::zero(),
        }
    }
}

/// A base of zero has no difference in percent, and no difference is made up for a missing side.
pub proof fn differences_are_not_made_up(
    f: spec_fn(Op) -> Number,
    base: Option<Number>,
    candidate: Option<Number>,
)
    ensures
        difference(f, base, candidate).delta is Some <==> base is Some && candidate is Some,
        base matches Some(b) && b.is_zero_spec() ==> difference(f, base, candidate).delta_percent
            is None,
        difference(f, base, candidate).delta_percent is Some ==> difference(
            f,
            base,
            candidate,
        ).delta is Some,
{
}

/// Reads a number of a row, where there is a row.
pub open spec fn read<U>(row: Option<U>, number: spec_fn(U) -> Option<Number>) -> Option<Number> {
    match row {
        Some(u) => number(u),
        None => None,
    }
}

/// The difference in one number of two rows.
pub open spec fn change_in<U>(
    f: spec_fn(Op) -> Number,
    p: (Option<U>, Option<U>),
    number: spec_fn(U) -> Option<Number>,
) -> NumericDiff {
    difference(f, read(p.0, number), read(p.1, number))
}

/// Where a row was found.
pub open spec fn presence_of<T>(base: Option<T>, candidate: Option<T>) -> Presence {
    if base is Some && candidate is Some {
        Presence::Both
    } else if candidate is Some {
        Presence::Added
    } else {
        Presence::Removed
    }
}

fn presence<T>(base: &Option<T>, candidate: &Option<T>) -> (r: Presence)
    ensures
        r == presence_of(*base, *candidate),
{
    match (base.is_some(), candidate.is_some()) {
        (true, true) => Presence::Both,
        (false, true) => Presence::Added,
        _ => Presence::Removed,
    }
}

/// The row from which a joined row is named.
pub open spec fn either<U>(p: (Option<U>, Option<U>)) -> U {
    if p.0 is Some {
        p.0->0
    } else {
        p.1->0
    }
}

#[derive(Debug)]
pub struct DiffSection<T> {
    pub total_count: usize,
    pub truncated: bool,
    pub items: Vec<T>,
}

/// Sorts the rows, and cuts them down to what a comparison shows.
fn compact<T, K: Key>(
    items: Vec<T>,
    keys: &Vec<K>,
    Ghost(key): Ghost<spec_fn(T) -> K::Model>,
) -> (r: DiffSection<T>)
    requires
        models(keys@) == items@.map_values(key),
    ensures
        r.total_count == items@.len(),
        r.truncated == (items@.len() > COMPACT_LIMIT),
        shortened(stable_sorted::<T, K>(items@, key), COMPACT_LIMIT as int, r.items@),
{
    let mut rows = sort_by_keys(items, keys, Ghost(key));
    let total_count: usize = rows.len();
    let ghost all = rows@;
    rows.truncate(COMPACT_LIMIT);
    assert(shortened(all, COMPACT_LIMIT as int, rows@)) by {
        if all.len() <= COMPACT_LIMIT {
            assert(all.take(all.len() as int) == all);
        } else {
            assert(rows@ == all.take(COMPACT_LIMIT as int));
        }
    }
    DiffSection { total_count, truncated: total_count > rows.len(), items: rows }
}

/// `s` shows `rows`, which are in order.
pub open spec fn shows<T: View>(s: DiffSection<T>, rows: Seq<T::V>) -> bool {
    &&& s.total_count == rows.len()
    &&& s.truncated == (rows.len() > COMPACT_LIMIT)
    &&& shortened(rows, COMPACT_LIMIT as int, s.items@.map_values(|t: T| t@))
}

pub open spec fn viewed<T: View>(value: Option<T>) -> Option<T::V> {
    match value {
        Some(v) => Some(v@),
        None => None,
    }
}

pub open spec fn status_of(row: Option<CoverageView>) -> Option<Seq<char>> {
    match row {
        Some(r) => Some(r.status),
        None => None,
    }
}

pub open spec fn lacking(row: Option<CoverageView>) -> Seq<Seq<char>> {
    match row {
        Some(r) => r.missing_metrics,
        None => Seq::empty(),
    }
}

/// The status or the missing metrics are others.
pub open spec fn has_changed(d: CoverageChange) -> bool {
    d.base_status != d.candidate_status || d.base_missing_metrics != d.candidate_missing_metrics
}

fn optional_status(row: &Option<CoverageSummary>) -> (r: Option<String>)
    ensures
        text_option(r) == status_of(viewed(*row)),
{
    match row {
        Some(row) => Some(row.status.clone()),
        None => None,
    }
}

fn missing_list(row: &Option<CoverageSummary>) -> (r: Vec<String>)
    ensures
        texts(r@) == lacking(viewed(*row)),
{
    match row {
        Some(row) => copied(&row.missing_metrics),
        None => {
            let out: Vec<String> = Vec::new();
            assert(texts(out@) == Seq::<Seq<char>>::empty());
            out
        },
    }
}

/// A copy of a list of texts.
pub fn copied(list: &Vec<String>) -> (r: Vec<String>)
    ensures
        texts(r@) == texts(list@),
{
    let ghost all = texts(list@);
    let mut out: Vec<String> = Vec::new();
    let mut i: usize = 0;
    while i < list.len()
        invariant
            i <= list@.len(),
            all == texts(list@),
            texts(out@) == all.take(i as int),
        decreases list.len() - i,
    {
        let ghost was = out@;
        out.push(list[i].clone());
        assert(texts(out@) == texts(was).push(all[i as int]));
        assert(all.take(i + 1) == all.take(i as int).push(all[i as int]));
        i += 1;
    }
    assert(all.take(i as int) == all);
    out
}

fn same_option(a: &Option<String>, b: &Option<String>) -> (r: bool)
    ensures
        r == (text_option(*a) == text_option(*b)),
{
    match (a, b) {
        (Some(x), Some(y)) => same(x.as_str(), y.as_str()),
        (None, None) => true,
        _ => false,
    }
}

fn same_list(a: &Vec<String>, b: &Vec<String>) -> (r: bool)
    ensures
        r == (texts(a@) == texts(b@)),
{
    if a.len() != b.len() {
        assert(texts(a@).len() != texts(b@).len());
        return false;
    }
    let mut i: usize = 0;
    while i < a.len()
        invariant
            a@.len() == b@.len(),
            i <= a@.len(),
            forall|j: int| 0 <= j < i ==> (#[trigger] a@[j])@ == b@[j]@,
        decreases a.len() - i,
    {
        if !same(a[i].as_str(), b[i].as_str()) {
            assert(texts(a@)[i as int] != texts(b@)[i as int]);
            return false;
        }
        i += 1;
    }
    assert(texts(a@) == texts(b@));
    true
}

fn changed(d: &CoverageDiff) -> (r: bool)
    ensures
        r == has_changed(d@),
{
    !same_option(&d.base_status, &d.candidate_status) || !same_list(
        &d.base_missing_metrics,
        &d.candidate_missing_metrics,
    )
}

/// How the coverage by one collector changed.
#[derive(Debug)]
pub struct CoverageDiff {
    pub section: String,
    pub node: String,
    pub collector: String,
    pub phase: String,
    pub presence: Presence,
    pub base_status: Option<String>,
    pub candidate_status: Option<String>,
    pub base_missing_metrics: Vec<String>,
    pub candidate_missing_metrics: Vec<String>,
}

/// The mathematical value of `CoverageDiff`.
#[verifier::ext_equal]
pub struct CoverageChange {
    pub section: Seq<char>,
    pub node: Seq<char>,
    pub collector: Seq<char>,
    pub phase: Seq<char>,
    pub presence: Presence,
    pub base_status: Option<Seq<char>>,
    pub candidate_status: Option<Seq<char>>,
    pub base_missing_metrics: Seq<Seq<char>>,
    pub candidate_missing_metrics: Seq<Seq<char>>,
}

impl View for CoverageDiff {
    type V = CoverageChange;

    open spec fn view(&self) -> CoverageChange {
        CoverageChange {
            section: self.section@,
            node: self.node@,
            collector: self.collector@,
            phase: self.phase@,
            presence: self.presence,
            base_status: text_option(self.base_status),
            candidate_status: text_option(self.candidate_status),
            base_missing_metrics: texts(self.base_missing_metrics@),
            candidate_missing_metrics: texts(self.candidate_missing_metrics@),
        }
    }
}

pub open spec fn by_coverage() -> spec_fn(CoverageView) -> (Seq<char>, (Seq<char>, (Seq<char>, Seq<char>))) {
    |r: CoverageView| (r.section, (r.node, (r.collector, r.phase)))
}

pub open spec fn coverage_change() -> spec_fn((Option<CoverageView>, Option<CoverageView>)) -> CoverageChange {
    |p: (Option<CoverageView>, Option<CoverageView>)|
        {
            let r = either(p);
            CoverageChange {
                section: r.section,
                node: r.node,
                collector: r.collector,
                phase: r.phase,
                presence: presence_of(p.0, p.1),
                base_status: status_of(p.0),
                candidate_status: status_of(p.1),
                base_missing_metrics: lacking(p.0),
                candidate_missing_metrics: lacking(p.1),
            }
        }
}

pub open spec fn by_coverage_change() -> spec_fn(CoverageChange) -> (bool, (Seq<char>, (Seq<char>, Seq<char>))) {
    |d: CoverageChange| (has_changed(d), (d.section, (d.node, d.collector)))
}

/// All changes, the largest first.
pub open spec fn coverage_changes(base: Seq<CoverageView>, candidate: Seq<CoverageView>) -> Seq<CoverageChange> {
    stable_sorted::<CoverageChange, (Reverse<bool>, (String, (String, String)))>(
        pairs_of::<CoverageView, (String, (String, (String, String)))>(base, candidate, by_coverage()).map_values(coverage_change()),
        by_coverage_change(),
    )
}

fn coverage_keys(rows: &Vec<CoverageSummary>) -> (keys: Vec<(String, (String, (String, String)))>)
    ensures
        models(keys@) == rows@.map_values(|r: CoverageSummary| by_coverage()((|r: CoverageSummary| r@)(r))),
{
    let ghost key = |r: CoverageSummary| by_coverage()((|r: CoverageSummary| r@)(r));
    let mut keys: Vec<(String, (String, (String, String)))> = Vec::new();
    let mut i: usize = 0;
    while i < rows.len()
        invariant
            i <= rows@.len(),
            key == (|r: CoverageSummary| by_coverage()((|r: CoverageSummary| r@)(r))),
            models(keys@) == rows@.take(i as int).map_values(key),
        decreases rows.len() - i,
    {
        let row = &rows[i];
        let ghost was = keys@;
        keys.push((row.section.clone(), (row.node.clone(), (row.collector.clone(), row.phase.clone()))));
        assert(models(keys@) == models(was).push(key(rows@[i as int])));
        assert(rows@.take(i + 1).map_values(key) == rows@.take(i as int).map_values(key).push(
            key(rows@[i as int]),
        ));
        i += 1;
    }
    assert(rows@.take(i as int) == rows@);
    keys
}

fn coverage_row(one: Option<CoverageSummary>, two: Option<CoverageSummary>) -> (d: CoverageDiff)
    requires
        one is Some || two is Some,
    ensures
        d@ == coverage_change()((viewed(one), viewed(two))),
{
    let presence = presence(&one, &two);
    let base_status = optional_status(&one);
    let candidate_status = optional_status(&two);
    let base_missing_metrics = missing_list(&one);
    let candidate_missing_metrics = missing_list(&two);
    match (one, two) {
        (Some(row), _) => CoverageDiff {
            section: row.section,
            node: row.node,
            collector: row.collector,
            phase: row.phase,
            presence,
            base_status,
            candidate_status,
            base_missing_metrics,
            candidate_missing_metrics,
        },
        (None, Some(row)) => CoverageDiff {
            section: row.section,
            node: row.node,
            collector: row.collector,
            phase: row.phase,
            presence,
            base_status,
            candidate_status,
            base_missing_metrics,
            candidate_missing_metrics,
        },
        (None, None) => {
            assert(false);
            CoverageDiff {
                section: String::new(),
                node: String::new(),
                collector: String::new(),
                phase: String::new(),
                presence,
            base_status,
            candidate_status,
            base_missing_metrics,
            candidate_missing_metrics,
            }
        },
    }
}

/// Compares the coverage rows of two runs; both sides are joined in full before anything is cut.
pub fn coverage_diff(
    base: Vec<CoverageSummary>,
    candidate: Vec<CoverageSummary>,
) -> (r: DiffSection<CoverageDiff>)
    requires
        base@.len() + candidate@.len() <= usize::MAX,
    ensures
        shows(r, coverage_changes(coverage_views(base@), coverage_views(candidate@))),
{
    let ghost view = |r: CoverageSummary| r@;
    let ghost key = |r: CoverageSummary| by_coverage()(view(r));
    let base_keys = coverage_keys(&base);
    let candidate_keys = coverage_keys(&candidate);
    let ghost left = base@;
    let ghost right = candidate@;
    let pairs = pair_up(base, base_keys, candidate, candidate_keys, Ghost(key));
    proof {
        pairs_through::<CoverageSummary, CoverageView, (String, (String, (String, String)))>(left, right, view, by_coverage());
        joins_lose_no_key::<CoverageSummary, (String, (String, (String, String)))>(left, right, key);
        assert(left.map_values(view) == coverage_views(left));
        assert(right.map_values(view) == coverage_views(right));
    }
    let ghost all = pairs@;
    let ghost both = all.map_values(both_views(view));
    let ghost finish = coverage_change();
    let ghost shown = |d: CoverageDiff| d@;
    let ghost through = |d: CoverageDiff| by_coverage_change()(shown(d));
    let mut items: Vec<CoverageDiff> = Vec::new();
    let mut ranks: Vec<(Reverse<bool>, (String, (String, String)))> = Vec::new();
    for pair in it: pairs
        invariant
            it.seq() == all,
            view == (|r: CoverageSummary| r@),
            both == all.map_values(both_views(view)),
            finish == coverage_change(),
            shown == (|d: CoverageDiff| d@),
            through == (|d: CoverageDiff| by_coverage_change()(shown(d))),
            forall|i: int|
                0 <= i < all.len() ==> (#[trigger] all[i]).0 is Some || all[i].1 is Some,
            items@.map_values(shown) == both.take(it.index() as int).map_values(finish),
            models(ranks@) == items@.map_values(through),
    {
        let ghost n = it.index() as int;
        assert(all[n] == pair);
        assert(both[n] == (viewed(pair.0), viewed(pair.1)));
        let (one, two) = pair;
        let item = coverage_row(one, two);
        let ghost was = items@;
        let ghost was_ranks = ranks@;
        ranks.push((
            Reverse { key: changed(&item) },
            (item.section.clone(), (item.node.clone(), item.collector.clone())),
        ));
        items.push(item);
        proof {
            assert(items@.map_values(shown) == was.map_values(shown).push(item@));
            assert(both.take(n + 1).map_values(finish) == both.take(n).map_values(finish).push(
                finish(both[n]),
            ));
            assert(models(ranks@) == models(was_ranks).push(through(item)));
            assert(items@.map_values(through) == was.map_values(through).push(through(item)));
        }
    }
    assert(both.take(both.len() as int) == both);
    proof {
        stable_sorted_through::<CoverageDiff, CoverageChange, (Reverse<bool>, (String, (String, String)))>(items@, shown, by_coverage_change());
    }
    let ghost rows = items@;
    let r = compact(items, &ranks, Ghost(through));
    proof {
        let sorted = stable_sorted::<CoverageDiff, (Reverse<bool>, (String, (String, String)))>(rows, through);
        let m = if sorted.len() <= COMPACT_LIMIT {
            sorted.len() as int
        } else {
            COMPACT_LIMIT as int
        };
        assert(sorted.take(m).map_values(shown) == sorted.map_values(shown).take(m));
        crate::join::sorted_length::<CoverageDiff, (Reverse<bool>, (String, (String, String)))>(rows, through);
    }
    r
}

pub open spec fn classes_of(row: Option<RouteView>) -> Seq<(Seq<char>, Number)> {
    match row {
        Some(r) => r.status_counts,
        None => Seq::empty(),
    }
}

pub open spec fn class_names(counts: Seq<(Seq<char>, Number)>) -> Seq<Seq<char>> {
    counts.map_values(|p: (Seq<char>, Number)| p.0)
}

/// The change in the responses of each status class that either side has, by class.
pub open spec fn class_changes(
    f: spec_fn(Op) -> Number,
    p: (Option<RouteView>, Option<RouteView>),
) -> Seq<(Seq<char>, NumericDiff)> {
    let before = classes_of(p.0);
    let after = classes_of(p.1);
    distinct_sorted::<String>(class_names(before) + class_names(after)).map_values(
        |class: Seq<char>|
            (class, difference(f, lookup(before, class), lookup(after, class))),
    )
}

fn count_in(counts: &Option<&Counts>, class: &str) -> (r: Option<Number>)
    ensures
        r == (match *counts {
            Some(c) => lookup(c@, class@),
            None => None,
        }),
{
    match counts {
        Some(c) => match c.get(class) {
            Some(n) => Some(*n),
            None => None,
        },
        None => None,
    }
}

fn add_classes(all: &mut Vec<String>, counts: &Option<&Counts>)
    ensures
        texts(final(all)@) == texts(old(all)@) + class_names(
            match *counts {
                Some(c) => c@,
                None => Seq::empty(),
            },
        ),
{
    let ghost before = texts(all@);
    match counts {
        Some(c) => {
            let ghost names = class_names(c@);
            let n: usize = c.len();
            let mut i: usize = 0;
            assert(before + names.take(0) == before);
            while i < n
                invariant
                    n == c@.len(),
                    i <= n,
                    names == class_names(c@),
                    texts(all@) == before + names.take(i as int),
                decreases n - i,
            {
                let ghost was = all@;
                all.push(c.key(i).clone());
                assert(texts(all@) == texts(was).push(names[i as int]));
                assert(before + names.take(i + 1) == (before + names.take(i as int)).push(
                    names[i as int],
                ));
                i += 1;
            }
            assert(names.take(i as int) == names);
        },
        None => {
            assert(before + class_names(Seq::empty()) == before);
        },
    }
}

fn status_changes<F: Fn(Op) -> Number>(
    one: &Option<HttpRouteSummary>,
    two: &Option<HttpRouteSummary>,
    compute: &F,
) -> (r: TextMap<NumericDiff>)
    requires
        is_arithmetic(*compute),
    ensures
        r@ == class_changes(arithmetic(*compute), (viewed(*one), viewed(*two))),
{
    let ghost f = arithmetic(*compute);
    let before: Option<&Counts> = match one {
        Some(row) => Some(&row.status_counts),
        None => None,
    };
    let after: Option<&Counts> = match two {
        Some(row) => Some(&row.status_counts),
        None => None,
    };
    let ghost a = classes_of(viewed(*one));
    let ghost b = classes_of(viewed(*two));
    let mut all: Vec<String> = Vec::new();
    assert(texts(all@) == Seq::<Seq<char>>::empty());
    add_classes(&mut all, &before);
    assert(texts(all@) == class_names(a));
    add_classes(&mut all, &after);
    let ghost m = models(all@);
    assert(m == class_names(a) + class_names(b));
    let groups = crate::order::group_by_key(&all);
    let ghost names = distinct_sorted::<String>(m);
    proof {
        crate::order::grouping_keys::<String>(m, groups@);
        crate::order::distinct_sorted_holds::<String>(m);
    }
    let ghost each = |class: Seq<char>| (class, difference(f, lookup(a, class), lookup(b, class)));
    let ghost goal = names.map_values(each);
    let mut out: TextMap<NumericDiff> = TextMap::new();
    let mut g: usize = 0;
    while g < groups.len()
        invariant
            is_arithmetic(*compute),
            f == arithmetic(*compute),
            g <= groups@.len(),
            a == (match before {
                Some(c) => c@,
                None => Seq::empty(),
            }),
            b == (match after {
                Some(c) => c@,
                None => Seq::empty(),
            }),
            m == models(all@),
            crate::order::grouping::<String>(m, groups@),
            crate::order::group_keys(m, groups@) == names,
            crate::order::ascends(crate::order::key_before::<String>(), names),
            each == (|class: Seq<char>|
                (class, difference(f, lookup(a, class), lookup(b, class)))),
            goal == names.map_values(each),
            out@ == goal.take(g as int),
        decreases groups.len() - g,
    {
        let at: usize = groups[g][0];
        assert(names[g as int] == crate::order::group_key(m, groups@[g as int]));
        assert(m[at as int] == all@[at as int]@);
        let class = &all[at];
        let value = NumericDiff::new(
            count_in(&before, class.as_str()),
            count_in(&after, class.as_str()),
            compute,
        );
        let ghost had = out@;
        proof {
            if g > 0 {
                let before_key = crate::order::key_before::<String>();
                assert(before_key(names[g - 1], names[g as int]));
                crate::order::text_order(names[g - 1], names[g as int], names[g - 1]);
                assert(had.last() == goal[g - 1]);
            }
        }
        out.insert(class.clone(), value);
        assert(out@ == had.push(goal[g as int]));
        assert(goal.take(g + 1) == goal.take(g as int).push(goal[g as int]));
        g += 1;
    }
    assert(goal.take(g as int) == goal);
    out
}

/// How the requests of one route changed.
#[derive(Debug)]
pub struct HttpDiff {
    pub node: String,
    pub method: String,
    pub route: String,
    pub presence: Presence,
    pub status_counts: TextMap<NumericDiff>,
    pub count: NumericDiff,
    pub total_ms: NumericDiff,
    pub avg_ms: NumericDiff,
    pub p50_ms: NumericDiff,
    pub p95_ms: NumericDiff,
    pub p99_ms: NumericDiff,
    pub errors: NumericDiff,
    pub error_rate: NumericDiff,
    pub response_bytes: NumericDiff,
}

/// The mathematical value of `HttpDiff`.
#[verifier::ext_equal]
pub struct RouteChange {
    pub node: Seq<char>,
    pub method: Seq<char>,
    pub route: Seq<char>,
    pub presence: Presence,
    pub status_counts: Seq<(Seq<char>, NumericDiff)>,
    pub count: NumericDiff,
    pub total_ms: NumericDiff,
    pub avg_ms: NumericDiff,
    pub p50_ms: NumericDiff,
    pub p95_ms: NumericDiff,
    pub p99_ms: NumericDiff,
    pub errors: NumericDiff,
    pub error_rate: NumericDiff,
    pub response_bytes: NumericDiff,
}

impl View for HttpDiff {
    type V = RouteChange;

    open spec fn view(&self) -> RouteChange {
        RouteChange {
            node: self.node@,
            method: self.method@,
            route: self.route@,
            presence: self.presence,
            status_counts: self.status_counts@,
            count: self.count,
            total_ms: self.total_ms,
            avg_ms: self.avg_ms,
            p50_ms: self.p50_ms,
            p95_ms: self.p95_ms,
            p99_ms: self.p99_ms,
            errors: self.errors,
            error_rate: self.error_rate,
            response_bytes: self.response_bytes,
        }
    }
}

pub open spec fn by_http() -> spec_fn(RouteView) -> (Seq<char>, (Seq<char>, Seq<char>)) {
    |r: RouteView| (r.node, (r.method, r.route))
}

pub open spec fn http_change(f: spec_fn(Op) -> Number) -> spec_fn((Option<RouteView>, Option<RouteView>)) -> RouteChange {
    |p: (Option<RouteView>, Option<RouteView>)|
        {
            let r = either(p);
            RouteChange {
                node: r.node,
                method: r.method,
                route: r.route,
                presence: presence_of(p.0, p.1),
                status_counts: class_changes(f, p),
                count: change_in(f, p, |v: RouteView| Some(v.count)),
                total_ms: change_in(f, p, |v: RouteView| v.total_ms),
                avg_ms: change_in(f, p, |v: RouteView| v.avg_ms),
                p50_ms: change_in(f, p, |v: RouteView| v.p50_ms),
                p95_ms: change_in(f, p, |v: RouteView| v.p95_ms),
                p99_ms: change_in(f, p, |v: RouteView| v.p99_ms),
                errors: change_in(f, p, |v: RouteView| Some(v.errors)),
                error_rate: change_in(f, p, |v: RouteView| v.error_rate),
                response_bytes: change_in(f, p, |v: RouteView| v.response_bytes),
            }
        }
}

pub open spec fn by_http_change() -> spec_fn(RouteChange) -> (int, (int, Seq<char>)) {
    |d: RouteChange| (d.total_ms.size().place(), (d.count.size().place(), d.route))
}

/// All changes, the largest first.
pub open spec fn http_changes(f: spec_fn(Op) -> Number, base: Seq<RouteView>, candidate: Seq<RouteView>) -> Seq<RouteChange> {
    stable_sorted::<RouteChange, (Reverse<Number>, (Reverse<Number>, String))>(
        pairs_of::<RouteView, (String, (String, String))>(base, candidate, by_http()).map_values(http_change(f)),
        by_http_change(),
    )
}

fn http_keys(rows: &Vec<HttpRouteSummary>) -> (keys: Vec<(String, (String, String))>)
    ensures
        models(keys@) == rows@.map_values(|r: HttpRouteSummary| by_http()((|r: HttpRouteSummary| r@)(r))),
{
    let ghost key = |r: HttpRouteSummary| by_http()((|r: HttpRouteSummary| r@)(r));
    let mut keys: Vec<(String, (String, String))> = Vec::new();
    let mut i: usize = 0;
    while i < rows.len()
        invariant
            i <= rows@.len(),
            key == (|r: HttpRouteSummary| by_http()((|r: HttpRouteSummary| r@)(r))),
            models(keys@) == rows@.take(i as int).map_values(key),
        decreases rows.len() - i,
    {
        let row = &rows[i];
        let ghost was = keys@;
        keys.push((row.node.clone(), (row.method.clone(), row.route.clone())));
        assert(models(keys@) == models(was).push(key(rows@[i as int])));
        assert(rows@.take(i + 1).map_values(key) == rows@.take(i as int).map_values(key).push(
            key(rows@[i as int]),
        ));
        i += 1;
    }
    assert(rows@.take(i as int) == rows@);
    keys
}

fn http_row<F: Fn(Op) -> Number>(one: Option<HttpRouteSummary>, two: Option<HttpRouteSummary>, compute: &F) -> (d: HttpDiff)
    requires
        is_arithmetic(*compute),
        one is Some || two is Some,
    ensures
        d@ == http_change(arithmetic(*compute))((viewed(one), viewed(two))),
{
    let presence = presence(&one, &two);
    let count = NumericDiff::new(
        match &one {
            Some(row) => Some(row.count),
            None => None,
        },
        match &two {
            Some(row) => Some(row.count),
            None => None,
        },
        compute,
    );
    let total_ms = NumericDiff::new(
        match &one {
            Some(row) => row.total_ms,
            None => None,
        },
        match &two {
            Some(row) => row.total_ms,
            None => None,
        },
        compute,
    );
    let avg_ms = NumericDiff::new(
        match &one {
            Some(row) => row.avg_ms,
            None => None,
        },
        match &two {
            Some(row) => row.avg_ms,
            None => None,
        },
        compute,
    );
    let p50_ms = NumericDiff::new(
        match &one {
            Some(row) => row.p50_ms,
            None => None,
        },
        match &two {
            Some(row) => row.p50_ms,
            None => None,
        },
        compute,
    );
    let p95_ms = NumericDiff::new(
        match &one {
            Some(row) => row.p95_ms,
            None => None,
        },
        match &two {
            Some(row) => row.p95_ms,
            None => None,
        },
        compute,
    );
    let p99_ms = NumericDiff::new(
        match &one {
            Some(row) => row.p99_ms,
            None => None,
        },
        match &two {
            Some(row) => row.p99_ms,
            None => None,
        },
        compute,
    );
    let errors = NumericDiff::new(
        match &one {
            Some(row) => Some(row.errors),
            None => None,
        },
        match &two {
            Some(row) => Some(row.errors),
            None => None,
        },
        compute,
    );
    let error_rate = NumericDiff::new(
        match &one {
            Some(row) => row.error_rate,
            None => None,
        },
        match &two {
            Some(row) => row.error_rate,
            None => None,
        },
        compute,
    );
    let response_bytes = NumericDiff::new(
        match &one {
            Some(row) => row.response_bytes,
            None => None,
        },
        match &two {
            Some(row) => row.response_bytes,
            None => None,
        },
        compute,
    );
    let status_counts = status_changes(&one, &two, compute);
    match (one, two) {
        (Some(row), _) => HttpDiff {
            node: row.node,
            method: row.method,
            route: row.route,
            presence,
            status_counts,
            count,
            total_ms,
            avg_ms,
            p50_ms,
            p95_ms,
            p99_ms,
            errors,
            error_rate,
            response_bytes,
        },
        (None, Some(row)) => HttpDiff {
            node: row.node,
            method: row.method,
            route: row.route,
            presence,
            status_counts,
            count,
            total_ms,
            avg_ms,
            p50_ms,
            p95_ms,
            p99_ms,
            errors,
            error_rate,
            response_bytes,
        },
        (None, None) => {
            assert(false);
            HttpDiff {
                node: String::new(),
                method: String::new(),
                route: String::new(),
                presence,
            status_counts,
                count,
                total_ms,
                avg_ms,
                p50_ms,
                p95_ms,
                p99_ms,
                errors,
                error_rate,
                response_bytes,
            }
        },
    }
}

/// Compares the http rows of two runs; both sides are joined in full before anything is cut.
pub fn http_diff<F: Fn(Op) -> Number>(
    base: Vec<HttpRouteSummary>,
    candidate: Vec<HttpRouteSummary>,
    compute: &F,
) -> (r: DiffSection<HttpDiff>)
    requires
        is_arithmetic(*compute),
        base@.len() + candidate@.len() <= usize::MAX,
    ensures
        shows(r, http_changes(arithmetic(*compute), route_views(base@), route_views(candidate@))),
{
    let ghost f = arithmetic(*compute);
    let ghost view = |r: HttpRouteSummary| r@;
    let ghost key = |r: HttpRouteSummary| by_http()(view(r));
    let base_keys = http_keys(&base);
    let candidate_keys = http_keys(&candidate);
    let ghost left = base@;
    let ghost right = candidate@;
    let pairs = pair_up(base, base_keys, candidate, candidate_keys, Ghost(key));
    proof {
        pairs_through::<HttpRouteSummary, RouteView, (String, (String, String))>(left, right, view, by_http());
        joins_lose_no_key::<HttpRouteSummary, (String, (String, String))>(left, right, key);
        assert(left.map_values(view) == route_views(left));
        assert(right.map_values(view) == route_views(right));
    }
    let ghost all = pairs@;
    let ghost both = all.map_values(both_views(view));
    let ghost finish = http_change(f);
    let ghost shown = |d: HttpDiff| d@;
    let ghost through = |d: HttpDiff| by_http_change()(shown(d));
    let mut items: Vec<HttpDiff> = Vec::new();
    let mut ranks: Vec<(Reverse<Number>, (Reverse<Number>, String))> = Vec::new();
    for pair in it: pairs
        invariant
            is_arithmetic(*compute),
            f == arithmetic(*compute),
            it.seq() == all,
            view == (|r: HttpRouteSummary| r@),
            both == all.map_values(both_views(view)),
            finish == http_change(f),
            shown == (|d: HttpDiff| d@),
            through == (|d: HttpDiff| by_http_change()(shown(d))),
            forall|i: int|
                0 <= i < all.len() ==> (#[trigger] all[i]).0 is Some || all[i].1 is Some,
            items@.map_values(shown) == both.take(it.index() as int).map_values(finish),
            models(ranks@) == items@.map_values(through),
    {
        let ghost n = it.index() as int;
        assert(all[n] == pair);
        assert(both[n] == (viewed(pair.0), viewed(pair.1)));
        let (one, two) = pair;
        let item = http_row(one, two, compute);
        let ghost was = items@;
        let ghost was_ranks = ranks@;
        ranks.push((
            Reverse { key: item.total_ms.magnitude() },
            (Reverse { key: item.count.magnitude() }, item.route.clone()),
        ));
        items.push(item);
        proof {
            assert(items@.map_values(shown) == was.map_values(shown).push(item@));
            assert(both.take(n + 1).map_values(finish) == both.take(n).map_values(finish).push(
                finish(both[n]),
            ));
            assert(models(ranks@) == models(was_ranks).push(through(item)));
            assert(items@.map_values(through) == was.map_values(through).push(through(item)));
        }
    }
    assert(both.take(both.len() as int) == both);
    proof {
        stable_sorted_through::<HttpDiff, RouteChange, (Reverse<Number>, (Reverse<Number>, String))>(items@, shown, by_http_change());
    }
    let ghost rows = items@;
    let r = compact(items, &ranks, Ghost(through));
    proof {
        let sorted = stable_sorted::<HttpDiff, (Reverse<Number>, (Reverse<Number>, String))>(rows, through);
        let m = if sorted.len() <= COMPACT_LIMIT {
            sorted.len() as int
        } else {
            COMPACT_LIMIT as int
        };
        assert(sorted.take(m).map_values(shown) == sorted.map_values(shown).take(m));
        crate::join::sorted_length::<HttpDiff, (Reverse<Number>, (Reverse<Number>, String))>(rows, through);
    }
    r
}

/// How the calls of one statement changed.
#[derive(Debug)]
pub struct DatabaseDiff {
    pub node: String,
    pub engine: String,
    pub digest: String,
    pub source: String,
    pub window: Option<String>,
    pub digest_id: Option<String>,
    pub presence: Presence,
    pub calls: NumericDiff,
    pub total_ms: NumericDiff,
    pub avg_ms: NumericDiff,
    pub p95_ms: NumericDiff,
    pub lock_ms: NumericDiff,
    pub rows_sent: NumericDiff,
    pub rows_examined: NumericDiff,
    pub rows_examined_per_call: NumericDiff,
}

/// The mathematical value of `DatabaseDiff`.
#[verifier::ext_equal]
pub struct StatementChange {
    pub node: Seq<char>,
    pub engine: Seq<char>,
    pub digest: Seq<char>,
    pub source: Seq<char>,
    pub window: Option<Seq<char>>,
    pub digest_id: Option<Seq<char>>,
    pub presence: Presence,
    pub calls: NumericDiff,
    pub total_ms: NumericDiff,
    pub avg_ms: NumericDiff,
    pub p95_ms: NumericDiff,
    pub lock_ms: NumericDiff,
    pub rows_sent: NumericDiff,
    pub rows_examined: NumericDiff,
    pub rows_examined_per_call: NumericDiff,
}

impl View for DatabaseDiff {
    type V = StatementChange;

    open spec fn view(&self) -> StatementChange {
        StatementChange {
            node: self.node@,
            engine: self.engine@,
            digest: self.digest@,
            source: self.source@,
            window: text_option(self.window),
            digest_id: text_option(self.digest_id),
            presence: self.presence,
            calls: self.calls,
            total_ms: self.total_ms,
            avg_ms: self.avg_ms,
            p95_ms: self.p95_ms,
            lock_ms: self.lock_ms,
            rows_sent: self.rows_sent,
            rows_examined: self.rows_examined,
            rows_examined_per_call: self.rows_examined_per_call,
        }
    }
}

pub open spec fn by_database() -> spec_fn(QueryView) -> QueryKeyModel {
    |r: QueryView| (r.node, (r.engine, (r.digest, (r.source, (r.window, r.digest_id)))))
}

pub open spec fn database_change(f: spec_fn(Op) -> Number) -> spec_fn((Option<QueryView>, Option<QueryView>)) -> StatementChange {
    |p: (Option<QueryView>, Option<QueryView>)|
        {
            let r = either(p);
            StatementChange {
                node: r.node,
                engine: r.engine,
                digest: r.digest,
                source: r.source,
                window: r.window,
                digest_id: r.digest_id,
                presence: presence_of(p.0, p.1),
                calls: change_in(f, p, |v: QueryView| Some(v.calls)),
                total_ms: change_in(f, p, |v: QueryView| Some(v.total_ms)),
                avg_ms: change_in(f, p, |v: QueryView| v.avg_ms),
                p95_ms: change_in(f, p, |v: QueryView| v.p95_ms),
                lock_ms: change_in(f, p, |v: QueryView| Some(v.lock_ms)),
                rows_sent: change_in(f, p, |v: QueryView| Some(v.rows_sent)),
                rows_examined: change_in(f, p, |v: QueryView| Some(v.rows_examined)),
                rows_examined_per_call: change_in(f, p, |v: QueryView| v.rows_examined_per_call),
            }
        }
}

pub open spec fn by_database_change() -> spec_fn(StatementChange) -> (int, Seq<char>) {
    |d: StatementChange| (d.total_ms.size().place(), d.digest)
}

/// All changes, the largest first.
pub open spec fn database_changes(f: spec_fn(Op) -> Number, base: Seq<QueryView>, candidate: Seq<QueryView>) -> Seq<StatementChange> {
    stable_sorted::<StatementChange, (Reverse<Number>, String)>(
        pairs_of::<QueryView, QueryKey>(base, candidate, by_database()).map_values(database_change(f)),
        by_database_change(),
    )
}

fn database_keys(rows: &Vec<DatabaseSummary>) -> (keys: Vec<QueryKey>)
    ensures
        models(keys@) == rows@.map_values(|r: DatabaseSummary| by_database()((|r: DatabaseSummary| r@)(r))),
{
    let ghost key = |r: DatabaseSummary| by_database()((|r: DatabaseSummary| r@)(r));
    let mut keys: Vec<QueryKey> = Vec::new();
    let mut i: usize = 0;
    while i < rows.len()
        invariant
            i <= rows@.len(),
            key == (|r: DatabaseSummary| by_database()((|r: DatabaseSummary| r@)(r))),
            models(keys@) == rows@.take(i as int).map_values(key),
        decreases rows.len() - i,
    {
        let row = &rows[i];
        let ghost was = keys@;
        keys.push(
            (
                row.node.clone(),
                (
                    row.engine.clone(),
                    (
                        row.digest.clone(),
                        (row.source.clone(), (row.window.clone(), row.digest_id.clone())),
                    ),
                ),
            ),
        );
        assert(models(keys@) == models(was).push(key(rows@[i as int])));
        assert(rows@.take(i + 1).map_values(key) == rows@.take(i as int).map_values(key).push(
            key(rows@[i as int]),
        ));
        i += 1;
    }
    assert(rows@.take(i as int) == rows@);
    keys
}

fn database_row<F: Fn(Op) -> Number>(one: Option<DatabaseSummary>, two: Option<DatabaseSummary>, compute: &F) -> (d: DatabaseDiff)
    requires
        is_arithmetic(*compute),
        one is Some || two is Some,
    ensures
        d@ == database_change(arithmetic(*compute))((viewed(one), viewed(two))),
{
    let presence = presence(&one, &two);
    let calls = NumericDiff::new(
        match &one {
            Some(row) => Some(row.calls),
            None => None,
        },
        match &two {
            Some(row) => Some(row.calls),
            None => None,
        },
        compute,
    );
    let total_ms = NumericDiff::new(
        match &one {
            Some(row) => Some(row.total_ms),
            None => None,
        },
        match &two {
            Some(row) => Some(row.total_ms),
            None => None,
        },
        compute,
    );
    let avg_ms = NumericDiff::new(
        match &one {
            Some(row) => row.avg_ms,
            None => None,
        },
        match &two {
            Some(row) => row.avg_ms,
            None => None,
        },
        compute,
    );
    let p95_ms = NumericDiff::new(
        match &one {
            Some(row) => row.p95_ms,
            None => None,
        },
        match &two {
            Some(row) => row.p95_ms,
            None => None,
        },
        compute,
    );
    let lock_ms = NumericDiff::new(
        match &one {
            Some(row) => Some(row.lock_ms),
            None => None,
        },
        match &two {
            Some(row) => Some(row.lock_ms),
            None => None,
        },
        compute,
    );
    let rows_sent = NumericDiff::new(
        match &one {
            Some(row) => Some(row.rows_sent),
            None => None,
        },
        match &two {
            Some(row) => Some(row.rows_sent),
            None => None,
        },
        compute,
    );
    let rows_examined = NumericDiff::new(
        match &one {
            Some(row) => Some(row.rows_examined),
            None => None,
        },
        match &two {
            Some(row) => Some(row.rows_examined),
            None => None,
        },
        compute,
    );
    let rows_examined_per_call = NumericDiff::new(
        match &one {
            Some(row) => row.rows_examined_per_call,
            None => None,
        },
        match &two {
            Some(row) => row.rows_examined_per_call,
            None => None,
        },
        compute,
    );
    match (one, two) {
        (Some(row), _) => DatabaseDiff {
            node: row.node,
            engine: row.engine,
            digest: row.digest,
            source: row.source,
            window: row.window,
            digest_id: row.digest_id,
            presence,
            calls,
            total_ms,
            avg_ms,
            p95_ms,
            lock_ms,
            rows_sent,
            rows_examined,
            rows_examined_per_call,
        },
        (None, Some(row)) => DatabaseDiff {
            node: row.node,
            engine: row.engine,
            digest: row.digest,
            source: row.source,
            window: row.window,
            digest_id: row.digest_id,
            presence,
            calls,
            total_ms,
            avg_ms,
            p95_ms,
            lock_ms,
            rows_sent,
            rows_examined,
            rows_examined_per_call,
        },
        (None, None) => {
            assert(false);
            DatabaseDiff {
                node: String::new(),
                engine: String::new(),
                digest: String::new(),
                source: String::new(),
                window: None,
                digest_id: None,
                presence,
                calls,
                total_ms,
                avg_ms,
                p95_ms,
                lock_ms,
                rows_sent,
                rows_examined,
                rows_examined_per_call,
            }
        },
    }
}

/// Compares the database rows of two runs; both sides are joined in full before anything is cut.
pub fn database_diff<F: Fn(Op) -> Number>(
    base: Vec<DatabaseSummary>,
    candidate: Vec<DatabaseSummary>,
    compute: &F,
) -> (r: DiffSection<DatabaseDiff>)
    requires
        is_arithmetic(*compute),
        base@.len() + candidate@.len() <= usize::MAX,
    ensures
        shows(r, database_changes(arithmetic(*compute), query_views(base@), query_views(candidate@))),
{
    let ghost f = arithmetic(*compute);
    let ghost view = |r: DatabaseSummary| r@;
    let ghost key = |r: DatabaseSummary| by_database()(view(r));
    let base_keys = database_keys(&base);
    let candidate_keys = database_keys(&candidate);
    let ghost left = base@;
    let ghost right = candidate@;
    let pairs = pair_up(base, base_keys, candidate, candidate_keys, Ghost(key));
    proof {
        pairs_through::<DatabaseSummary, QueryView, QueryKey>(left, right, view, by_database());
        joins_lose_no_key::<DatabaseSummary, QueryKey>(left, right, key);
        assert(left.map_values(view) == query_views(left));
        assert(right.map_values(view) == query_views(right));
    }
    let ghost all = pairs@;
    let ghost both = all.map_values(both_views(view));
    let ghost finish = database_change(f);
    let ghost shown = |d: DatabaseDiff| d@;
    let ghost through = |d: DatabaseDiff| by_database_change()(shown(d));
    let mut items: Vec<DatabaseDiff> = Vec::new();
    let mut ranks: Vec<(Reverse<Number>, String)> = Vec::new();
    for pair in it: pairs
        invariant
            is_arithmetic(*compute),
            f == arithmetic(*compute),
            it.seq() == all,
            view == (|r: DatabaseSummary| r@),
            both == all.map_values(both_views(view)),
            finish == database_change(f),
            shown == (|d: DatabaseDiff| d@),
            through == (|d: DatabaseDiff| by_database_change()(shown(d))),
            forall|i: int|
                0 <= i < all.len() ==> (#[trigger] all[i]).0 is Some || all[i].1 is Some,
            items@.map_values(shown) == both.take(it.index() as int).map_values(finish),
            models(ranks@) == items@.map_values(through),
    {
        let ghost n = it.index() as int;
        assert(all[n] == pair);
        assert(both[n] == (viewed(pair.0), viewed(pair.1)));
        let (one, two) = pair;
        let item = database_row(one, two, compute);
        let ghost was = items@;
        let ghost was_ranks = ranks@;
        ranks.push((Reverse { key: item.total_ms.magnitude() }, item.digest.clone()));
        items.push(item);
        proof {
            assert(items@.map_values(shown) == was.map_values(shown).push(item@));
            assert(both.take(n + 1).map_values(finish) == both.take(n).map_values(finish).push(
                finish(both[n]),
            ));
            assert(models(ranks@) == models(was_ranks).push(through(item)));
            assert(items@.map_values(through) == was.map_values(through).push(through(item)));
        }
    }
    assert(both.take(both.len() as int) == both);
    proof {
        stable_sorted_through::<DatabaseDiff, StatementChange, (Reverse<Number>, String)>(items@, shown, by_database_change());
    }
    let ghost rows = items@;
    let r = compact(items, &ranks, Ghost(through));
    proof {
        let sorted = stable_sorted::<DatabaseDiff, (Reverse<Number>, String)>(rows, through);
        let m = if sorted.len() <= COMPACT_LIMIT {
            sorted.len() as int
        } else {
            COMPACT_LIMIT as int
        };
        assert(sorted.take(m).map_values(shown) == sorted.map_values(shown).take(m));
        crate::join::sorted_length::<DatabaseDiff, (Reverse<Number>, String)>(rows, through);
    }
    r
}

/// How the share of one symbol changed.
#[derive(Debug)]
pub struct CpuDiff {
    pub node: String,
    pub process: String,
    pub binary: String,
    pub symbol: String,
    pub source: String,
    pub presence: Presence,
    pub sample_percent: NumericDiff,
}

/// The mathematical value of `CpuDiff`.
#[verifier::ext_equal]
pub struct SymbolChange {
    pub node: Seq<char>,
    pub process: Seq<char>,
    pub binary: Seq<char>,
    pub symbol: Seq<char>,
    pub source: Seq<char>,
    pub presence: Presence,
    pub sample_percent: NumericDiff,
}

impl View for CpuDiff {
    type V = SymbolChange;

    open spec fn view(&self) -> SymbolChange {
        SymbolChange {
            node: self.node@,
            process: self.process@,
            binary: self.binary@,
            symbol: self.symbol@,
            source: self.source@,
            presence: self.presence,
            sample_percent: self.sample_percent,
        }
    }
}

pub open spec fn by_cpu() -> spec_fn(SymbolView) -> (Seq<char>, (Seq<char>, (Seq<char>, (Seq<char>, Seq<char>)))) {
    |r: SymbolView| (r.node, (r.process, (r.binary, (r.symbol, r.source))))
}

pub open spec fn cpu_change(f: spec_fn(Op) -> Number) -> spec_fn((Option<SymbolView>, Option<SymbolView>)) -> SymbolChange {
    |p: (Option<SymbolView>, Option<SymbolView>)|
        {
            let r = either(p);
            SymbolChange {
                node: r.node,
                process: r.process,
                binary: r.binary,
                symbol: r.symbol,
                source: r.source,
                presence: presence_of(p.0, p.1),
                sample_percent: change_in(f, p, |v: SymbolView| Some(v.sample_percent)),
            }
        }
}

pub open spec fn by_cpu_change() -> spec_fn(SymbolChange) -> (int, Seq<char>) {
    |d: SymbolChange| (d.sample_percent.size().place(), d.symbol)
}

/// All changes, the largest first.
pub open spec fn cpu_changes(f: spec_fn(Op) -> Number, base: Seq<SymbolView>, candidate: Seq<SymbolView>) -> Seq<SymbolChange> {
    stable_sorted::<SymbolChange, (Reverse<Number>, String)>(
        pairs_of::<SymbolView, (String, (String, (String, (String, String))))>(base, candidate, by_cpu()).map_values(cpu_change(f)),
        by_cpu_change(),
    )
}

fn cpu_keys(rows: &Vec<CpuSummary>) -> (keys: Vec<(String, (String, (String, (String, String))))>)
    ensures
        models(keys@) == rows@.map_values(|r: CpuSummary| by_cpu()((|r: CpuSummary| r@)(r))),
{
    let ghost key = |r: CpuSummary| by_cpu()((|r: CpuSummary| r@)(r));
    let mut keys: Vec<(String, (String, (String, (String, String))))> = Vec::new();
    let mut i: usize = 0;
    while i < rows.len()
        invariant
            i <= rows@.len(),
            key == (|r: CpuSummary| by_cpu()((|r: CpuSummary| r@)(r))),
            models(keys@) == rows@.take(i as int).map_values(key),
        decreases rows.len() - i,
    {
        let row = &rows[i];
        let ghost was = keys@;
        keys.push((row.node.clone(), (row.process.clone(), (row.binary.clone(), (row.symbol.clone(), row.source.clone())))));
        assert(models(keys@) == models(was).push(key(rows@[i as int])));
        assert(rows@.take(i + 1).map_values(key) == rows@.take(i as int).map_values(key).push(
            key(rows@[i as int]),
        ));
        i += 1;
    }
    assert(rows@.take(i as int) == rows@);
    keys
}

fn cpu_row<F: Fn(Op) -> Number>(one: Option<CpuSummary>, two: Option<CpuSummary>, compute: &F) -> (d: CpuDiff)
    requires
        is_arithmetic(*compute),
        one is Some || two is Some,
    ensures
        d@ == cpu_change(arithmetic(*compute))((viewed(one), viewed(two))),
{
    let presence = presence(&one, &two);
    let sample_percent = NumericDiff::new(
        match &one {
            Some(row) => Some(row.sample_percent),
            None => None,
        },
        match &two {
            Some(row) => Some(row.sample_percent),
            None => None,
        },
        compute,
    );
    match (one, two) {
        (Some(row), _) => CpuDiff {
            node: row.node,
            process: row.process,
            binary: row.binary,
            symbol: row.symbol,
            source: row.source,
            presence,
            sample_percent,
        },
        (None, Some(row)) => CpuDiff {
            node: row.node,
            process: row.process,
            binary: row.binary,
            symbol: row.symbol,
            source: row.source,
            presence,
            sample_percent,
        },
        (None, None) => {
            assert(false);
            CpuDiff {
                node: String::new(),
                process: String::new(),
                binary: String::new(),
                symbol: String::new(),
                source: String::new(),
                presence,
                sample_percent,
            }
        },
    }
}

/// Compares the cpu rows of two runs; both sides are joined in full before anything is cut.
pub fn cpu_diff<F: Fn(Op) -> Number>(
    base: Vec<CpuSummary>,
    candidate: Vec<CpuSummary>,
    compute: &F,
) -> (r: DiffSection<CpuDiff>)
    requires
        is_arithmetic(*compute),
        base@.len() + candidate@.len() <= usize::MAX,
    ensures
        shows(r, cpu_changes(arithmetic(*compute), symbol_views(base@), symbol_views(candidate@))),
{
    let ghost f = arithmetic(*compute);
    let ghost view = |r: CpuSummary| r@;
    let ghost key = |r: CpuSummary| by_cpu()(view(r));
    let base_keys = cpu_keys(&base);
    let candidate_keys = cpu_keys(&candidate);
    let ghost left = base@;
    let ghost right = candidate@;
    let pairs = pair_up(base, base_keys, candidate, candidate_keys, Ghost(key));
    proof {
        pairs_through::<CpuSummary, SymbolView, (String, (String, (String, (String, String))))>(left, right, view, by_cpu());
        joins_lose_no_key::<CpuSummary, (String, (String, (String, (String, String))))>(left, right, key);
        assert(left.map_values(view) == symbol_views(left));
        assert(right.map_values(view) == symbol_views(right));
    }
    let ghost all = pairs@;
    let ghost both = all.map_values(both_views(view));
    let ghost finish = cpu_change(f);
    let ghost shown = |d: CpuDiff| d@;
    let ghost through = |d: CpuDiff| by_cpu_change()(shown(d));
    let mut items: Vec<CpuDiff> = Vec::new();
    let mut ranks: Vec<(Reverse<Number>, String)> = Vec::new();
    for pair in it: pairs
        invariant
            is_arithmetic(*compute),
            f == arithmetic(*compute),
            it.seq() == all,
            view == (|r: CpuSummary| r@),
            both == all.map_values(both_views(view)),
            finish == cpu_change(f),
            shown == (|d: CpuDiff| d@),
            through == (|d: CpuDiff| by_cpu_change()(shown(d))),
            forall|i: int|
                0 <= i < all.len() ==> (#[trigger] all[i]).0 is Some || all[i].1 is Some,
            items@.map_values(shown) == both.take(it.index() as int).map_values(finish),
            models(ranks@) == items@.map_values(through),
    {
        let ghost n = it.index() as int;
        assert(all[n] == pair);
        assert(both[n] == (viewed(pair.0), viewed(pair.1)));
        let (one, two) = pair;
        let item = cpu_row(one, two, compute);
        let ghost was = items@;
        let ghost was_ranks = ranks@;
        ranks.push((Reverse { key: item.sample_percent.magnitude() }, item.symbol.clone()));
        items.push(item);
        proof {
            assert(items@.map_values(shown) == was.map_values(shown).push(item@));
            assert(both.take(n + 1).map_values(finish) == both.take(n).map_values(finish).push(
                finish(both[n]),
            ));
            assert(models(ranks@) == models(was_ranks).push(through(item)));
            assert(items@.map_values(through) == was.map_values(through).push(through(item)));
        }
    }
    assert(both.take(both.len() as int) == both);
    proof {
        stable_sorted_through::<CpuDiff, SymbolChange, (Reverse<Number>, String)>(items@, shown, by_cpu_change());
    }
    let ghost rows = items@;
    let r = compact(items, &ranks, Ghost(through));
    proof {
        let sorted = stable_sorted::<CpuDiff, (Reverse<Number>, String)>(rows, through);
        let m = if sorted.len() <= COMPACT_LIMIT {
            sorted.len() as int
        } else {
            COMPACT_LIMIT as int
        };
        assert(sorted.take(m).map_values(shown) == sorted.map_values(shown).take(m));
        crate::join::sorted_length::<CpuDiff, (Reverse<Number>, String)>(rows, through);
    }
    r
}

pub open spec fn unit_of(row: Option<HostView>) -> Option<Seq<char>> {
    match row {
        Some(r) => Some(r.unit),
        None => None,
    }
}

pub open spec fn peak_time(row: Option<HostView>) -> Option<Seq<char>> {
    match row {
        Some(r) => time_text(r.peak_at),
        None => None,
    }
}

fn optional_unit(row: &Option<HostSummary>) -> (r: Option<String>)
    ensures
        text_option(r) == unit_of(viewed(*row)),
{
    match row {
        Some(row) => Some(row.unit.clone()),
        None => None,
    }
}

fn optional_peak_time(row: &Option<HostSummary>) -> (r: Option<String>)
    requires
        row matches Some(h) ==> on_calendar(h.peak_at),
    ensures
        text_option(r) == peak_time(viewed(*row)),
{
    match row {
        Some(row) => optional_rfc3339(row.peak_at),
        None => None,
    }
}

/// How one host metric changed.
#[derive(Debug)]
pub struct HostDiff {
    pub node: String,
    pub metric: String,
    pub target: String,
    pub source: String,
    pub presence: Presence,
    pub base_unit: Option<String>,
    pub candidate_unit: Option<String>,
    pub base_peak_at: Option<String>,
    pub candidate_peak_at: Option<String>,
    pub average: NumericDiff,
    pub peak: NumericDiff,
}

/// The mathematical value of `HostDiff`.
#[verifier::ext_equal]
pub struct HostChange {
    pub node: Seq<char>,
    pub metric: Seq<char>,
    pub target: Seq<char>,
    pub source: Seq<char>,
    pub presence: Presence,
    pub base_unit: Option<Seq<char>>,
    pub candidate_unit: Option<Seq<char>>,
    pub base_peak_at: Option<Seq<char>>,
    pub candidate_peak_at: Option<Seq<char>>,
    pub average: NumericDiff,
    pub peak: NumericDiff,
}

impl View for HostDiff {
    type V = HostChange;

    open spec fn view(&self) -> HostChange {
        HostChange {
            node: self.node@,
            metric: self.metric@,
            target: self.target@,
            source: self.source@,
            presence: self.presence,
            base_unit: text_option(self.base_unit),
            candidate_unit: text_option(self.candidate_unit),
            base_peak_at: text_option(self.base_peak_at),
            candidate_peak_at: text_option(self.candidate_peak_at),
            average: self.average,
            peak: self.peak,
        }
    }
}

pub open spec fn by_host() -> spec_fn(HostView) -> (Seq<char>, (Seq<char>, (Seq<char>, Seq<char>))) {
    |r: HostView| (r.node, (r.metric, (r.target, r.source)))
}

pub open spec fn host_change(f: spec_fn(Op) -> Number) -> spec_fn((Option<HostView>, Option<HostView>)) -> HostChange {
    |p: (Option<HostView>, Option<HostView>)|
        {
            let r = either(p);
            HostChange {
                node: r.node,
                metric: r.metric,
                target: r.target,
                source: r.source,
                presence: presence_of(p.0, p.1),
                base_unit: unit_of(p.0),
                candidate_unit: unit_of(p.1),
                base_peak_at: peak_time(p.0),
                candidate_peak_at: peak_time(p.1),
                average: change_in(f, p, |v: HostView| Some(v.average)),
                peak: change_in(f, p, |v: HostView| Some(v.peak)),
            }
        }
}

pub open spec fn by_host_change() -> spec_fn(HostChange) -> (int, (int, Seq<char>)) {
    |d: HostChange| (d.peak.size().place(), (d.average.size().place(), d.metric))
}

/// All changes, the largest first.
pub open spec fn host_changes(f: spec_fn(Op) -> Number, base: Seq<HostView>, candidate: Seq<HostView>) -> Seq<HostChange> {
    stable_sorted::<HostChange, (Reverse<Number>, (Reverse<Number>, String))>(
        pairs_of::<HostView, (String, (String, (String, String)))>(base, candidate, by_host()).map_values(host_change(f)),
        by_host_change(),
    )
}

fn host_keys(rows: &Vec<HostSummary>) -> (keys: Vec<(String, (String, (String, String)))>)
    ensures
        models(keys@) == rows@.map_values(|r: HostSummary| by_host()((|r: HostSummary| r@)(r))),
{
    let ghost key = |r: HostSummary| by_host()((|r: HostSummary| r@)(r));
    let mut keys: Vec<(String, (String, (String, String)))> = Vec::new();
    let mut i: usize = 0;
    while i < rows.len()
        invariant
            i <= rows@.len(),
            key == (|r: HostSummary| by_host()((|r: HostSummary| r@)(r))),
            models(keys@) == rows@.take(i as int).map_values(key),
        decreases rows.len() - i,
    {
        let row = &rows[i];
        let ghost was = keys@;
        keys.push((row.node.clone(), (row.metric.clone(), (row.target.clone(), row.source.clone()))));
        assert(models(keys@) == models(was).push(key(rows@[i as int])));
        assert(rows@.take(i + 1).map_values(key) == rows@.take(i as int).map_values(key).push(
            key(rows@[i as int]),
        ));
        i += 1;
    }
    assert(rows@.take(i as int) == rows@);
    keys
}

fn host_row<F: Fn(Op) -> Number>(one: Option<HostSummary>, two: Option<HostSummary>, compute: &F) -> (d: HostDiff)
    requires
        is_arithmetic(*compute),
        one is Some || two is Some,
        one matches Some(row) ==> on_calendar(row.peak_at),
        two matches Some(row) ==> on_calendar(row.peak_at),
    ensures
        d@ == host_change(arithmetic(*compute))((viewed(one), viewed(two))),
{
    let presence = presence(&one, &two);
    let average = NumericDiff::new(
        match &one {
            Some(row) => Some(row.average),
            None => None,
        },
        match &two {
            Some(row) => Some(row.average),
            None => None,
        },
        compute,
    );
    let peak = NumericDiff::new(
        match &one {
            Some(row) => Some(row.peak),
            None => None,
        },
        match &two {
            Some(row) => Some(row.peak),
            None => None,
        },
        compute,
    );
    let base_unit = optional_unit(&one);
    let candidate_unit = optional_unit(&two);
    let base_peak_at = optional_peak_time(&one);
    let candidate_peak_at = optional_peak_time(&two);
    match (one, two) {
        (Some(row), _) => HostDiff {
            node: row.node,
            metric: row.metric,
            target: row.target,
            source: row.source,
            presence,
            base_unit,
            candidate_unit,
            base_peak_at,
            candidate_peak_at,
            average,
            peak,
        },
        (None, Some(row)) => HostDiff {
            node: row.node,
            metric: row.metric,
            target: row.target,
            source: row.source,
            presence,
            base_unit,
            candidate_unit,
            base_peak_at,
            candidate_peak_at,
            average,
            peak,
        },
        (None, None) => {
            assert(false);
            HostDiff {
                node: String::new(),
                metric: String::new(),
                target: String::new(),
                source: String::new(),
                presence,
            base_unit,
            candidate_unit,
            base_peak_at,
            candidate_peak_at,
                average,
                peak,
            }
        },
    }
}

/// Compares the host rows of two runs; both sides are joined in full before anything is cut.
pub fn host_diff<F: Fn(Op) -> Number>(
    base: Vec<HostSummary>,
    candidate: Vec<HostSummary>,
    compute: &F,
) -> (r: DiffSection<HostDiff>)
    requires
        is_arithmetic(*compute),
        base@.len() + candidate@.len() <= usize::MAX,
        forall|i: int| 0 <= i < base@.len() ==> on_calendar((#[trigger] base@[i]).peak_at),
        forall|i: int|
            0 <= i < candidate@.len() ==> on_calendar((#[trigger] candidate@[i]).peak_at),
    ensures
        shows(r, host_changes(arithmetic(*compute), host_views(base@), host_views(candidate@))),
{
    let ghost f = arithmetic(*compute);
    let ghost view = |r: HostSummary| r@;
    let ghost key = |r: HostSummary| by_host()(view(r));
    let base_keys = host_keys(&base);
    let candidate_keys = host_keys(&candidate);
    let ghost left = base@;
    let ghost right = candidate@;
    let pairs = pair_up(base, base_keys, candidate, candidate_keys, Ghost(key));
    proof {
        pairs_through::<HostSummary, HostView, (String, (String, (String, String)))>(left, right, view, by_host());
        joins_lose_no_key::<HostSummary, (String, (String, (String, String)))>(left, right, key);
        assert(left.map_values(view) == host_views(left));
        assert(right.map_values(view) == host_views(right));
        assert forall|i: int| 0 <= i < pairs@.len() implies ((#[trigger] pairs@[i]).0 matches Some(
            row,
        ) ==> on_calendar(row.peak_at)) && (pairs@[i].1 matches Some(row) ==> on_calendar(
            row.peak_at,
        )) by {
            let k = crate::join::union_keys::<(String, (String, (String, String)))>(
                left.map_values(key),
                right.map_values(key),
            )[i];
            crate::join::last_with_holds(left, key, k);
            crate::join::last_with_holds(right, key, k);
        }
    }
    let ghost all = pairs@;
    let ghost both = all.map_values(both_views(view));
    let ghost finish = host_change(f);
    let ghost shown = |d: HostDiff| d@;
    let ghost through = |d: HostDiff| by_host_change()(shown(d));
    let mut items: Vec<HostDiff> = Vec::new();
    let mut ranks: Vec<(Reverse<Number>, (Reverse<Number>, String))> = Vec::new();
    for pair in it: pairs
        invariant
            is_arithmetic(*compute),
            f == arithmetic(*compute),
            it.seq() == all,
            view == (|r: HostSummary| r@),
            both == all.map_values(both_views(view)),
            finish == host_change(f),
            shown == (|d: HostDiff| d@),
            through == (|d: HostDiff| by_host_change()(shown(d))),
            forall|i: int|
                0 <= i < all.len() ==> (#[trigger] all[i]).0 is Some || all[i].1 is Some,
            forall|i: int|
                0 <= i < all.len() ==> ((#[trigger] all[i]).0 matches Some(row) ==> on_calendar(
                    row.peak_at,
                )) && (all[i].1 matches Some(row) ==> on_calendar(row.peak_at)),
            items@.map_values(shown) == both.take(it.index() as int).map_values(finish),
            models(ranks@) == items@.map_values(through),
    {
        let ghost n = it.index() as int;
        assert(all[n] == pair);
        assert(both[n] == (viewed(pair.0), viewed(pair.1)));
        let (one, two) = pair;
        let item = host_row(one, two, compute);
        let ghost was = items@;
        let ghost was_ranks = ranks@;
        ranks.push((
            Reverse { key: item.peak.magnitude() },
            (Reverse { key: item.average.magnitude() }, item.metric.clone()),
        ));
        items.push(item);
        proof {
            assert(items@.map_values(shown) == was.map_values(shown).push(item@));
            assert(both.take(n + 1).map_values(finish) == both.take(n).map_values(finish).push(
                finish(both[n]),
            ));
            assert(models(ranks@) == models(was_ranks).push(through(item)));
            assert(items@.map_values(through) == was.map_values(through).push(through(item)));
        }
    }
    assert(both.take(both.len() as int) == both);
    proof {
        stable_sorted_through::<HostDiff, HostChange, (Reverse<Number>, (Reverse<Number>, String))>(items@, shown, by_host_change());
    }
    let ghost rows = items@;
    let r = compact(items, &ranks, Ghost(through));
    proof {
        let sorted = stable_sorted::<HostDiff, (Reverse<Number>, (Reverse<Number>, String))>(rows, through);
        let m = if sorted.len() <= COMPACT_LIMIT {
            sorted.len() as int
        } else {
            COMPACT_LIMIT as int
        };
        assert(sorted.take(m).map_values(shown) == sorted.map_values(shown).take(m));
        crate::join::sorted_length::<HostDiff, (Reverse<Number>, (Reverse<Number>, String))>(rows, through);
    }
    r
}

pub open spec fn transition_views(rows: Seq<Transition>) -> Seq<TransitionView> {
    rows.map_values(|r: Transition| r@)
}

/// How often one route followed another, before and after.
#[derive(Debug)]
pub struct TransitionDiff {
    pub from_route: String,
    pub to_route: String,
    pub presence: Presence,
    pub count: NumericDiff,
    pub p50_ms: NumericDiff,
    pub p95_ms: NumericDiff,
}

/// The mathematical value of `TransitionDiff`.
#[verifier::ext_equal]
pub struct TransitionChange {
    pub from_route: Seq<char>,
    pub to_route: Seq<char>,
    pub presence: Presence,
    pub count: NumericDiff,
    pub p50_ms: NumericDiff,
    pub p95_ms: NumericDiff,
}

impl View for TransitionDiff {
    type V = TransitionChange;

    open spec fn view(&self) -> TransitionChange {
        TransitionChange {
            from_route: self.from_route@,
            to_route: self.to_route@,
            presence: self.presence,
            count: self.count,
            p50_ms: self.p50_ms,
            p95_ms: self.p95_ms,
        }
    }
}

pub open spec fn by_transition() -> spec_fn(TransitionView) -> (Seq<char>, Seq<char>) {
    |r: TransitionView| (r.from_route, r.to_route)
}

pub open spec fn transition_change(f: spec_fn(Op) -> Number) -> spec_fn((Option<TransitionView>, Option<TransitionView>)) -> TransitionChange {
    |p: (Option<TransitionView>, Option<TransitionView>)|
        {
            let r = either(p);
            TransitionChange {
                from_route: r.from_route,
                to_route: r.to_route,
                presence: presence_of(p.0, p.1),
                count: change_in(f, p, |v: TransitionView| Some(f(Op::Integer(v.count)))),
                p50_ms: change_in(f, p, |v: TransitionView| v.p50_ms),
                p95_ms: change_in(f, p, |v: TransitionView| v.p95_ms),
            }
        }
}

pub open spec fn by_transition_change() -> spec_fn(TransitionChange) -> (int, (Seq<char>, Seq<char>)) {
    |d: TransitionChange| (d.count.size().place(), (d.from_route, d.to_route))
}

/// All changes, the largest first.
pub open spec fn transition_changes(f: spec_fn(Op) -> Number, base: Seq<TransitionView>, candidate: Seq<TransitionView>) -> Seq<TransitionChange> {
    stable_sorted::<TransitionChange, (Reverse<Number>, (String, String))>(
        pairs_of::<TransitionView, (String, String)>(base, candidate, by_transition()).map_values(transition_change(f)),
        by_transition_change(),
    )
}

fn transition_keys(rows: &Vec<Transition>) -> (keys: Vec<(String, String)>)
    ensures
        models(keys@) == rows@.map_values(|r: Transition| by_transition()((|r: Transition| r@)(r))),
{
    let ghost key = |r: Transition| by_transition()((|r: Transition| r@)(r));
    let mut keys: Vec<(String, String)> = Vec::new();
    let mut i: usize = 0;
    while i < rows.len()
        invariant
            i <= rows@.len(),
            key == (|r: Transition| by_transition()((|r: Transition| r@)(r))),
            models(keys@) == rows@.take(i as int).map_values(key),
        decreases rows.len() - i,
    {
        let row = &rows[i];
        let ghost was = keys@;
        keys.push((row.from_route.clone(), row.to_route.clone()));
        assert(models(keys@) == models(was).push(key(rows@[i as int])));
        assert(rows@.take(i + 1).map_values(key) == rows@.take(i as int).map_values(key).push(
            key(rows@[i as int]),
        ));
        i += 1;
    }
    assert(rows@.take(i as int) == rows@);
    keys
}

fn transition_row<F: Fn(Op) -> Number>(one: Option<Transition>, two: Option<Transition>, compute: &F) -> (d: TransitionDiff)
    requires
        is_arithmetic(*compute),
        one is Some || two is Some,
    ensures
        d@ == transition_change(arithmetic(*compute))((viewed(one), viewed(two))),
{
    let presence = presence(&one, &two);
    let p50_ms = NumericDiff::new(
        match &one {
            Some(row) => row.p50_ms,
            None => None,
        },
        match &two {
            Some(row) => row.p50_ms,
            None => None,
        },
        compute,
    );
    let p95_ms = NumericDiff::new(
        match &one {
            Some(row) => row.p95_ms,
            None => None,
        },
        match &two {
            Some(row) => row.p95_ms,
            None => None,
        },
        compute,
    );
    let count_before = match &one {
        Some(row) => Some(apply(compute, Op::Integer(row.count))),
        None => None,
    };
    let count_after = match &two {
        Some(row) => Some(apply(compute, Op::Integer(row.count))),
        None => None,
    };
    let count = NumericDiff::new(count_before, count_after, compute);
    match (one, two) {
        (Some(row), _) => TransitionDiff {
            from_route: row.from_route,
            to_route: row.to_route,
            presence,
            count,
            p50_ms,
            p95_ms,
        },
        (None, Some(row)) => TransitionDiff {
            from_route: row.from_route,
            to_route: row.to_route,
            presence,
            count,
            p50_ms,
            p95_ms,
        },
        (None, None) => {
            assert(false);
            TransitionDiff {
                from_route: String::new(),
                to_route: String::new(),
                presence,
            count,
                p50_ms,
                p95_ms,
            }
        },
    }
}

/// Compares the transition rows of two runs; both sides are joined in full before anything is cut.
pub fn transition_diff<F: Fn(Op) -> Number>(
    base: Vec<Transition>,
    candidate: Vec<Transition>,
    compute: &F,
) -> (r: DiffSection<TransitionDiff>)
    requires
        is_arithmetic(*compute),
        base@.len() + candidate@.len() <= usize::MAX,
    ensures
        shows(r, transition_changes(arithmetic(*compute), transition_views(base@), transition_views(candidate@))),
{
    let ghost f = arithmetic(*compute);
    let ghost view = |r: Transition| r@;
    let ghost key = |r: Transition| by_transition()(view(r));
    let base_keys = transition_keys(&base);
    let candidate_keys = transition_keys(&candidate);
    let ghost left = base@;
    let ghost right = candidate@;
    let pairs = pair_up(base, base_keys, candidate, candidate_keys, Ghost(key));
    proof {
        pairs_through::<Transition, TransitionView, (String, String)>(left, right, view, by_transition());
        joins_lose_no_key::<Transition, (String, String)>(left, right, key);
        assert(left.map_values(view) == transition_views(left));
        assert(right.map_values(view) == transition_views(right));
    }
    let ghost all = pairs@;
    let ghost both = all.map_values(both_views(view));
    let ghost finish = transition_change(f);
    let ghost shown = |d: TransitionDiff| d@;
    let ghost through = |d: TransitionDiff| by_transition_change()(shown(d));
    let mut items: Vec<TransitionDiff> = Vec::new();
    let mut ranks: Vec<(Reverse<Number>, (String, String))> = Vec::new();
    for pair in it: pairs
        invariant
            is_arithmetic(*compute),
            f == arithmetic(*compute),
            it.seq() == all,
            view == (|r: Transition| r@),
            both == all.map_values(both_views(view)),
            finish == transition_change(f),
            shown == (|d: TransitionDiff| d@),
            through == (|d: TransitionDiff| by_transition_change()(shown(d))),
            forall|i: int|
                0 <= i < all.len() ==> (#[trigger] all[i]).0 is Some || all[i].1 is Some,
            items@.map_values(shown) == both.take(it.index() as int).map_values(finish),
            models(ranks@) == items@.map_values(through),
    {
        let ghost n = it.index() as int;
        assert(all[n] == pair);
        assert(both[n] == (viewed(pair.0), viewed(pair.1)));
        let (one, two) = pair;
        let item = transition_row(one, two, compute);
        let ghost was = items@;
        let ghost was_ranks = ranks@;
        ranks.push((
            Reverse { key: item.count.magnitude() },
            (item.from_route.clone(), item.to_route.clone()),
        ));
        items.push(item);
        proof {
            assert(items@.map_values(shown) == was.map_values(shown).push(item@));
            assert(both.take(n + 1).map_values(finish) == both.take(n).map_values(finish).push(
                finish(both[n]),
            ));
            assert(models(ranks@) == models(was_ranks).push(through(item)));
            assert(items@.map_values(through) == was.map_values(through).push(through(item)));
        }
    }
    assert(both.take(both.len() as int) == both);
    proof {
        stable_sorted_through::<TransitionDiff, TransitionChange, (Reverse<Number>, (String, String))>(items@, shown, by_transition_change());
    }
    let ghost rows = items@;
    let r = compact(items, &ranks, Ghost(through));
    proof {
        let sorted = stable_sorted::<TransitionDiff, (Reverse<Number>, (String, String))>(rows, through);
        let m = if sorted.len() <= COMPACT_LIMIT {
            sorted.len() as int
        } else {
            COMPACT_LIMIT as int
        };
        assert(sorted.take(m).map_values(shown) == sorted.map_values(shown).take(m));
        crate::join::sorted_length::<TransitionDiff, (Reverse<Number>, (String, String))>(rows, through);
    }
    r
}

#[derive(Debug)]
pub struct DiffRun {
    pub id: String,
    pub started_at: String,
    pub commit_hash: Option<String>,
    pub dirty: bool,
    pub mode: String,
    pub state: String,
    pub score: Option<i64>,
    pub passed: Option<bool>,
    pub hypothesis: String,
    pub tags: Vec<String>,
}

/// `d` describes `run`.
pub open spec fn describes(d: DiffRun, run: RunManifest) -> bool {
    &&& d.id@ == run.id@
    &&& d.started_at@ == rfc3339(run.started_at.nanos as int)
    &&& text_option(d.commit_hash) == text_option(run.source.commit_hash)
    &&& d.dirty == run.source.dirty
    &&& d.mode@ == run.mode.name()
    &&& d.state@ == run.state.name()
    &&& d.score == run.benchmark.score
    &&& d.passed == run.benchmark.passed
    &&& d.hypothesis@ == run.hypothesis@
    &&& texts(d.tags@) == texts(run.tags@)
}

pub fn diff_run(run: &RunManifest) -> (r: DiffRun)
    requires
        run.started_at.valid(),
    ensures
        describes(r, *run),
{
    DiffRun {
        id: run.id.clone(),
        started_at: to_rfc3339(run.started_at),
        commit_hash: run.source.commit_hash.clone(),
        dirty: run.source.dirty,
        mode: run.mode.as_str().to_string(),
        state: run.state.as_str().to_string(),
        score: run.benchmark.score,
        passed: run.benchmark.passed,
        hypothesis: run.hypothesis.clone(),
        tags: copied(&run.tags),
    }
}

#[derive(Clone, Copy, Debug, PartialEq, Eq, Structural)]
pub struct ScoreDiff {
    pub base: Option<i64>,
    pub candidate: Option<i64>,
    pub delta: Option<i64>,
    pub delta_percent: Option<Number>,
}

/// The difference between two scores fits in sixty-four bits.
pub open spec fn scores_compare(base: Option<i64>, candidate: Option<i64>) -> bool {
    base is Some && candidate is Some ==> i64::MIN <= candidate->0 - base->0 <= i64::MAX
}

/// The difference between two scores, and that in percent of a base other than zero.
pub open spec fn score_change(
    f: spec_fn(Op) -> Number,
    base: Option<i64>,
    candidate: Option<i64>,
) -> ScoreDiff {
    let both = base is Some && candidate is Some;
    let delta = (candidate->0 - base->0) as i64;
    ScoreDiff {
        base,
        candidate,
        delta: if both {
            Some(delta)
        } else {
            None
        },
        delta_percent: if both && base->0 != 0 {
            Some(
                f(
                    Op::Multiply(
                        f(Op::Divide(f(Op::Integer(delta)), f(Op::Integer(base->0)))),
                        f(Op::Integer(100)),
                    ),
                ),
            )
        } else {
            None
        },
    }
}

pub fn score_diff<F: Fn(Op) -> Number>(
    base: Option<i64>,
    candidate: Option<i64>,
    compute: &F,
) -> (r: ScoreDiff)
    requires
        is_arithmetic(*compute),
        scores_compare(base, candidate),
    ensures
        r == score_change(arithmetic(*compute), base, candidate),
{
    match (base, candidate) {
        (Some(b), Some(c)) => {
            let delta: i64 = c - b;
            let delta_percent = if b == 0 {
                None
            } else {
                let change = apply(compute, Op::Integer(delta));
                let of = apply(compute, Op::Integer(b));
                let ratio = apply(compute, Op::Divide(change, of));
                let hundred = apply(compute, Op::Integer(100));
                Some(apply(compute, Op::Multiply(ratio, hundred)))
            };
            ScoreDiff { base, candidate, delta: Some(delta), delta_percent }
        },
        _ => ScoreDiff { base, candidate, delta: None, delta_percent: None },
    }
}

#[derive(Debug)]
pub struct RunDiff {
    pub schema_version: u32,
    pub base: DiffRun,
    pub candidate: DiffRun,
    pub score: ScoreDiff,
    pub coverage: DiffSection<CoverageDiff>,
    pub http: DiffSection<HttpDiff>,
    pub database: DiffSection<DatabaseDiff>,
    pub cpu: DiffSection<CpuDiff>,
    pub host: DiffSection<HostDiff>,
    pub transitions: DiffSection<TransitionDiff>,
}

/// The run began in the calendar, its peaks lie there, and its lists are of any ordinary length.
pub open spec fn comparable(d: RunDiagnostics) -> bool {
    &&& d.run.started_at.valid()
    &&& forall|i: int| 0 <= i < d.host@.len() ==> on_calendar((#[trigger] d.host@[i]).peak_at)
    &&& d.coverage@.len() <= usize::MAX / 2
    &&& d.http@.len() <= usize::MAX / 2
    &&& d.database@.len() <= usize::MAX / 2
    &&& d.cpu@.len() <= usize::MAX / 2
    &&& d.host@.len() <= usize::MAX / 2
    &&& d.transitions@.len() <= usize::MAX / 2
}

/// Compares two runs.
pub fn build<F: Fn(Op) -> Number>(
    base: RunDiagnostics,
    candidate: RunDiagnostics,
    compute: &F,
) -> (r: RunDiff)
    requires
        is_arithmetic(*compute),
        comparable(base),
        comparable(candidate),
        scores_compare(base.run.benchmark.score, candidate.run.benchmark.score),
    ensures
        ({
            let f = arithmetic(*compute);
            &&& r.schema_version == 1
            &&& describes(r.base, base.run)
            &&& describes(r.candidate, candidate.run)
            &&& r.score == score_change(
                f,
                base.run.benchmark.score,
                candidate.run.benchmark.score,
            )
            &&& shows(
                r.coverage,
                coverage_changes(coverage_views(base.coverage@), coverage_views(candidate.coverage@)),
            )
            &&& shows(r.http, http_changes(f, route_views(base.http@), route_views(candidate.http@)))
            &&& shows(
                r.database,
                database_changes(f, query_views(base.database@), query_views(candidate.database@)),
            )
            &&& shows(r.cpu, cpu_changes(f, symbol_views(base.cpu@), symbol_views(candidate.cpu@)))
            &&& shows(r.host, host_changes(f, host_views(base.host@), host_views(candidate.host@)))
            &&& shows(
                r.transitions,
                transition_changes(
                    f,
                    transition_views(base.transitions@),
                    transition_views(candidate.transitions@),
                ),
            )
        }),
{
    RunDiff {
        schema_version: 1,
        base: diff_run(&base.run),
        candidate: diff_run(&candidate.run),
        score: score_diff(base.run.benchmark.score, candidate.run.benchmark.score, compute),
        coverage: coverage_diff(base.coverage, candidate.coverage),
        http: http_diff(base.http, candidate.http, compute),
        database: database_diff(base.database, candidate.database, compute),
        cpu: cpu_diff(base.cpu, candidate.cpu, compute),
        host: host_diff(base.host, candidate.host, compute),
        transitions: transition_diff(base.transitions, candidate.transitions, compute),
    }
}

/// Writes the page of a comparison. `json` is the comparison as JSON.
pub fn write_html<S: Fn(Number, u32) -> String>(diff: &RunDiff, json: &str, show: &S) -> (r: String)
    requires
        crate::numeral::is_writer(*show),
    ensures
        r@ == crate::html::diff_page(crate::numeral::written(*show), *diff, json@),
{
    crate::html::write_diff(diff, json, show)
}

} // verus!
