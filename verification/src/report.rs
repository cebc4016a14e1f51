//! The normalized view of one run: routes, queries, symbols, hosts and coverage.
use crate::diff::{by_database, by_http};
use crate::join::{
    derefs, group_rows, keep, rows_of_keys_are_distinct, sort_by_keys, sorting_keeps_items,
    with_key,
};
use crate::labels::{lookup, with_label, Counts};
pub use crate::coverage::{CoverageSummary, ProfileArtifact};
use crate::coverage::{
    artifact_views, artifacts, coverage_rows, coverage_views, profile_artifacts,
};
use crate::model::{Metric, RunManifest, Transition};
use crate::moment::Moment;
use crate::number::{
    apply, arithmetic, count_value, is_arithmetic, sum, sum_from, total, total_from, Number, Op,
};
use crate::order::{distinct_sorted, models, stable_sorted, stable_sorted_through, Key, Reverse};
use crate::text::{chars_of, same, starts, starts_with};
use vstd::prelude::*;

verus! {

/// What a label of a metric says; a dash where it is absent.
pub open spec fn label_or_dash(metric: Metric, name: Seq<char>) -> Seq<char> {
    match lookup(metric.labels@, name) {
        Some(value) => value,
        None => "-"@,
    }
}

pub fn label(metric: &Metric, name: &str) -> (r: String)
    ensures
        r@ == label_or_dash(*metric, name@),
{
    match metric.labels.get(name) {
        Some(value) => value.clone(),
        None => "-".to_string(),
    }
}

/// The quotient, where the denominator is greater than zero.
pub open spec fn quotient(
    f: spec_fn(Op) -> Number,
    numerator: Number,
    denominator: Number,
) -> Option<Number> {
    if denominator.is_positive_spec() {
        Some(f(Op::Divide(numerator, denominator)))
    } else {
        None
    }
}

fn divide<F: Fn(Op) -> Number>(numerator: Number, denominator: Number, compute: &F) -> (r: Option<
    Number,
>)
    requires
        is_arithmetic(*compute),
    ensures
        r == quotient(arithmetic(*compute), numerator, denominator),
{
    if denominator.is_positive() {
        Some(apply(compute, Op::Divide(numerator, denominator)))
    } else {
        None
    }
}

pub open spec fn first_of(a: Option<Number>, b: Option<Number>) -> Option<Number> {
    if a is Some {
        a
    } else {
        b
    }
}

fn either(a: Option<Number>, b: Option<Number>) -> (r: Option<Number>)
    ensures
        r == first_of(a, b),
{
    if a.is_some() {
        a
    } else {
        b
    }
}

/// The requests of one route on one node.
#[derive(Debug)]
pub struct HttpRouteSummary {
    pub node: String,
    pub method: String,
    pub route: String,
    pub count: Number,
    pub total_ms: Option<Number>,
    pub avg_ms: Option<Number>,
    pub min_ms: Option<Number>,
    pub p50_ms: Option<Number>,
    pub p95_ms: Option<Number>,
    pub p99_ms: Option<Number>,
    pub max_ms: Option<Number>,
    pub errors: Number,
    pub error_rate: Option<Number>,
    pub response_bytes: Option<Number>,
    pub status_counts: Counts,
}

/// The mathematical value of a route summary.
#[verifier::ext_equal]
pub struct RouteView {
    pub node: Seq<char>,
    pub method: Seq<char>,
    pub route: Seq<char>,
    pub count: Number,
    pub total_ms: Option<Number>,
    pub avg_ms: Option<Number>,
    pub min_ms: Option<Number>,
    pub p50_ms: Option<Number>,
    pub p95_ms: Option<Number>,
    pub p99_ms: Option<Number>,
    pub max_ms: Option<Number>,
    pub errors: Number,
    pub error_rate: Option<Number>,
    pub response_bytes: Option<Number>,
    pub status_counts: Seq<(Seq<char>, Number)>,
}

impl View for HttpRouteSummary {
    type V = RouteView;

    open spec fn view(&self) -> RouteView {
        RouteView {
            node: self.node@,
            method: self.method@,
            route: self.route@,
            count: self.count,
            total_ms: self.total_ms,
            avg_ms: self.avg_ms,
            min_ms: self.min_ms,
            p50_ms: self.p50_ms,
            p95_ms: self.p95_ms,
            p99_ms: self.p99_ms,
            max_ms: self.max_ms,
            errors: self.errors,
            error_rate: self.error_rate,
            response_bytes: self.response_bytes,
            status_counts: self.status_counts@,
        }
    }
}

pub open spec fn route_views(rows: Seq<HttpRouteSummary>) -> Seq<RouteView> {
    rows.map_values(|r: HttpRouteSummary| r@)
}

/// A node, a method and a route.
pub type RouteKey = (Seq<char>, (Seq<char>, Seq<char>));

pub open spec fn blank_route(k: RouteKey) -> RouteView {
    RouteView {
        node: k.0,
        method: k.1.0,
        route: k.1.1,
        count: Number::zero_spec(),
        total_ms: None,
        avg_ms: None,
        min_ms: None,
        p50_ms: None,
        p95_ms: None,
        p99_ms: None,
        max_ms: None,
        errors: Number::zero_spec(),
        error_rate: None,
        response_bytes: None,
        status_counts: Seq::empty(),
    }
}

impl HttpRouteSummary {
    /// A route of which nothing is known.
    pub fn blank(node: String, method: String, route: String) -> (r: HttpRouteSummary)
        ensures
            r@ == blank_route((node@, (method@, route@))),
    {
        HttpRouteSummary {
            node,
            method,
            route,
            count: Number::zero(),
            total_ms: None,
            avg_ms: None,
            min_ms: None,
            p50_ms: None,
            p95_ms: None,
            p99_ms: None,
            max_ms: None,
            errors: Number::zero(),
            error_rate: None,
            response_bytes: None,
            status_counts: Counts::new(),
        }
    }
}

/// An aggregate of one route.
pub open spec fn of_route(metric: Metric) -> bool {
    &&& metric.timestamp is None
    &&& lookup(metric.labels@, "method"@) is Some
    &&& lookup(metric.labels@, "route"@) is Some
}

pub open spec fn route_key(metric: Metric) -> RouteKey {
    (
        label_or_dash(metric, "node"@),
        (label_or_dash(metric, "method"@), label_or_dash(metric, "route"@)),
    )
}

/// The collector that a metric comes from.
pub open spec fn source_of(metric: Metric) -> Seq<char> {
    label_or_dash(metric, "collector"@)
}

/// What one more metric adds to a summary: it takes the place of what the summary held.
pub open spec fn absorb_route(v: RouteView, m: Metric) -> RouteView {
    let quantile = lookup(m.labels@, "quantile"@);
    if m.name@ == "http.requests"@ {
        match lookup(m.labels@, "status_class"@) {
            Some(class) => RouteView {
                status_counts: with_label(v.status_counts, class, m.value),
                ..v
            },
            None => RouteView { count: m.value, ..v },
        }
    } else if m.name@ == "http.errors"@ {
        RouteView { errors: m.value, ..v }
    } else if m.name@ == "http.response_bytes"@ {
        RouteView { response_bytes: Some(m.value), ..v }
    } else if m.name@ == "http.request_duration_sum"@ {
        RouteView { total_ms: Some(m.value), ..v }
    } else if m.name@ == "http.request_duration_mean"@ {
        RouteView { avg_ms: Some(m.value), ..v }
    } else if m.name@ == "http.request_duration_min"@ {
        RouteView { min_ms: Some(m.value), ..v }
    } else if m.name@ == "http.request_duration_max"@ {
        RouteView { max_ms: Some(m.value), ..v }
    } else if m.name@ == "http.request_duration"@ && quantile == Some("0.50"@) {
        RouteView { p50_ms: Some(m.value), ..v }
    } else if m.name@ == "http.request_duration"@ && quantile == Some("0.95"@) {
        RouteView { p95_ms: Some(m.value), ..v }
    } else if m.name@ == "http.request_duration"@ && quantile == Some("0.99"@) {
        RouteView { p99_ms: Some(m.value), ..v }
    } else {
        v
    }
}

fn absorb_http(summary: &mut HttpRouteSummary, metric: &Metric)
    ensures
        final(summary)@ == absorb_route(old(summary)@, *metric),
{
    let name = metric.name.as_str();
    proof {
        reveal_strlit("0.50");
        reveal_strlit("0.95");
        reveal_strlit("0.99");
    }
    if same(name, "http.requests") {
        match metric.labels.get("status_class") {
            Some(class) => {
                summary.status_counts.insert(class.clone(), metric.value);
            },
            None => {
                summary.count = metric.value;
            },
        }
    } else if same(name, "http.errors") {
        summary.errors = metric.value;
    } else if same(name, "http.response_bytes") {
        summary.response_bytes = Some(metric.value);
    } else if same(name, "http.request_duration_sum") {
        summary.total_ms = Some(metric.value);
    } else if same(name, "http.request_duration_mean") {
        summary.avg_ms = Some(metric.value);
    } else if same(name, "http.request_duration_min") {
        summary.min_ms = Some(metric.value);
    } else if same(name, "http.request_duration_max") {
        summary.max_ms = Some(metric.value);
    } else if same(name, "http.request_duration") {
        if metric.labels.holds("quantile", "0.50") {
            summary.p50_ms = Some(metric.value);
        } else if metric.labels.holds("quantile", "0.95") {
            summary.p95_ms = Some(metric.value);
        } else if metric.labels.holds("quantile", "0.99") {
            summary.p99_ms = Some(metric.value);
        }
    }
}

/// What the metrics of one collector say of a route.
pub open spec fn source_route(k: RouteKey, metrics: Seq<Metric>) -> RouteView
    decreases metrics.len(),
{
    if metrics.len() == 0 {
        blank_route(k)
    } else {
        absorb_route(source_route(k, metrics.drop_last()), metrics.last())
    }
}

pub open spec fn count_values(counts: Seq<(Seq<char>, Number)>) -> Seq<Number> {
    counts.map_values(|p: (Seq<char>, Number)| p.1)
}

/// A summary without a request count counts its responses by status class.
pub open spec fn counted(f: spec_fn(Op) -> Number, v: RouteView) -> RouteView {
    if v.count.is_zero_spec() && v.status_counts.len() > 0 {
        RouteView { count: total(f, count_values(v.status_counts)), ..v }
    } else {
        v
    }
}

/// How much a summary knows: more comes first when sources are ranked.
pub open spec fn quality(v: RouteView) -> (bool, (bool, (bool, (bool, int)))) {
    (
        v.total_ms is Some,
        (
            v.count.is_positive_spec(),
            (v.avg_ms is Some, (v.p95_ms is Some, v.status_counts.len() as i64 as int)),
        ),
    )
}

/// The key type of `quality`, best first.
pub type QualityKey = Reverse<(bool, (bool, (bool, (bool, i64))))>;

/// A summary whose gaps are filled from another one.
pub open spec fn filled(v: RouteView, other: RouteView) -> RouteView {
    let no_classes = v.status_counts.len() == 0;
    RouteView {
        count: if v.count.is_zero_spec() {
            other.count
        } else {
            v.count
        },
        total_ms: first_of(v.total_ms, other.total_ms),
        avg_ms: first_of(v.avg_ms, other.avg_ms),
        min_ms: first_of(v.min_ms, other.min_ms),
        p50_ms: first_of(v.p50_ms, other.p50_ms),
        p95_ms: first_of(v.p95_ms, other.p95_ms),
        p99_ms: first_of(v.p99_ms, other.p99_ms),
        max_ms: first_of(v.max_ms, other.max_ms),
        response_bytes: first_of(v.response_bytes, other.response_bytes),
        status_counts: if no_classes {
            other.status_counts
        } else {
            v.status_counts
        },
        errors: if no_classes {
            other.errors
        } else {
            v.errors
        },
        ..v
    }
}

/// The first summary with its gaps filled from the following ones in turn.
pub open spec fn merged(ranked: Seq<RouteView>) -> RouteView
    decreases ranked.len(),
{
    if ranked.len() <= 1 {
        ranked[0]
    } else {
        filled(merged(ranked.drop_last()), ranked.last())
    }
}

/// The total, the average and the error rate where they follow from the rest.
pub open spec fn derived(f: spec_fn(Op) -> Number, v: RouteView) -> RouteView {
    let total_ms = match v.total_ms {
        Some(t) => Some(t),
        None => match v.avg_ms {
            Some(average) => Some(f(Op::Multiply(average, v.count))),
            None => None,
        },
    };
    let avg_ms = match v.avg_ms {
        Some(a) => Some(a),
        None => match total_ms {
            Some(t) => quotient(f, t, v.count),
            None => None,
        },
    };
    RouteView { total_ms, avg_ms, error_rate: quotient(f, v.errors, v.count), ..v }
}

pub open spec fn by_source() -> spec_fn(Metric) -> Seq<char> {
    |m: Metric| source_of(m)
}

pub open spec fn by_quality() -> spec_fn(RouteView) -> (bool, (bool, (bool, (bool, int)))) {
    |v: RouteView| quality(v)
}

/// What each collector says of the route, in the order of the collectors.
pub open spec fn candidates(
    f: spec_fn(Op) -> Number,
    k: RouteKey,
    metrics: Seq<Metric>,
) -> Seq<RouteView> {
    distinct_sorted::<String>(metrics.map_values(by_source())).map_values(
        |s: Seq<char>| counted(f, source_route(k, with_key(metrics, by_source(), s))),
    )
}

/// The summary of one route: from the collector that knows most, with gaps filled from the
/// others.
pub open spec fn route_of(
    f: spec_fn(Op) -> Number,
    k: RouteKey,
    metrics: Seq<Metric>,
) -> RouteView {
    derived(
        f,
        merged(stable_sorted::<RouteView, QualityKey>(candidates(f, k, metrics), by_quality())),
    )
}

pub open spec fn is_of_route() -> spec_fn(Metric) -> bool {
    |m: Metric| of_route(m)
}

pub open spec fn by_route() -> spec_fn(Metric) -> RouteKey {
    |m: Metric| route_key(m)
}

pub open spec fn or_zero(value: Option<Number>) -> Number {
    match value {
        Some(v) => v,
        None => Number::zero_spec(),
    }
}

/// Routes come by total time, then by count, the largest first, then by name.
pub open spec fn by_route_time() -> spec_fn(RouteView) -> (int, (int, Seq<char>)) {
    |v: RouteView| (or_zero(v.total_ms).place(), (v.count.place(), v.route))
}

pub type RouteTimeKey = (Reverse<Number>, (Reverse<Number>, String));

/// The summaries of all routes.
pub open spec fn routes(f: spec_fn(Op) -> Number, metrics: Seq<Metric>) -> Seq<RouteView> {
    let chosen = metrics.filter(is_of_route());
    stable_sorted::<RouteView, RouteTimeKey>(
        distinct_sorted::<(String, (String, String))>(chosen.map_values(by_route())).map_values(
            |k: RouteKey| route_of(f, k, with_key(chosen, by_route(), k)),
        ),
        by_route_time(),
    )
}

proof fn source_route_keeps_its_key(k: RouteKey, metrics: Seq<Metric>)
    ensures
        by_http()(source_route(k, metrics)) == k,
    decreases metrics.len(),
{
    if metrics.len() > 0 {
        source_route_keeps_its_key(k, metrics.drop_last());
    }
}

proof fn merged_keeps_its_key(ranked: Seq<RouteView>)
    requires
        ranked.len() > 0,
    ensures
        by_http()(merged(ranked)) == by_http()(ranked[0]),
    decreases ranked.len(),
{
    if ranked.len() > 1 {
        merged_keeps_its_key(ranked.drop_last());
    }
}

proof fn route_keeps_its_key(f: spec_fn(Op) -> Number, k: RouteKey, metrics: Seq<Metric>)
    requires
        metrics.len() > 0,
    ensures
        by_http()(route_of(f, k, metrics)) == k,
{
    let keys = metrics.map_values(by_source());
    let names = distinct_sorted::<String>(keys);
    let found = candidates(f, k, metrics);
    let ranked = stable_sorted::<RouteView, QualityKey>(found, by_quality());
    crate::order::distinct_sorted_holds::<String>(keys);
    assert(keys.contains(keys[0]));
    assert(names.contains(keys[0]));
    crate::join::sorted_length::<RouteView, QualityKey>(found, by_quality());
    sorting_keeps_items::<RouteView, RouteKey, QualityKey>(found, by_quality(), by_http());
    assert(ranked.contains(ranked[0]));
    let i = choose|i: int| 0 <= i < found.len() && found[i] == ranked[0];
    source_route_keeps_its_key(k, with_key(metrics, by_source(), names[i]));
    merged_keeps_its_key(ranked);
}

/// No two summaries are of one route of one node.
pub proof fn routes_are_distinct(f: spec_fn(Op) -> Number, metrics: Seq<Metric>)
    ensures
        routes(f, metrics).map_values(by_http()).no_duplicates(),
{
    let chosen = metrics.filter(is_of_route());
    let keys = chosen.map_values(by_route());
    let names = distinct_sorted::<(String, (String, String))>(keys);
    let make = |k: RouteKey| route_of(f, k, with_key(chosen, by_route(), k));
    crate::order::distinct_sorted_holds::<(String, (String, String))>(keys);
    assert forall|i: int| 0 <= i < names.len() implies by_http()(make(#[trigger] names[i]))
        == names[i] by {
        assert(names.contains(names[i]));
        let j = choose|j: int| 0 <= j < keys.len() && keys[j] == names[i];
        crate::join::with_key_contains(chosen, by_route(), j);
        route_keeps_its_key(f, names[i], with_key(chosen, by_route(), names[i]));
    }
    rows_of_keys_are_distinct::<RouteView, (String, (String, String)), RouteTimeKey>(
        keys,
        make,
        by_route_time(),
        by_http(),
    );
}

fn zero_if_none(value: Option<Number>) -> (r: Number)
    ensures
        r == or_zero(value),
{
    match value {
        Some(v) => v,
        None => Number::zero(),
    }
}

fn count_classes<F: Fn(Op) -> Number>(summary: &mut HttpRouteSummary, compute: &F)
    requires
        is_arithmetic(*compute),
    ensures
        final(summary)@ == counted(arithmetic(*compute), old(summary)@),
{
    if summary.count.is_zero() && summary.status_counts.len() > 0 {
        let mut values: Vec<Number> = Vec::new();
        let mut i: usize = 0;
        let ghost counts = summary.status_counts@;
        while i < summary.status_counts.len()
            invariant
                i <= counts.len(),
                summary@ == old(summary)@,
                counts == summary.status_counts@,
                values@ == count_values(counts).take(i as int),
            decreases counts.len() - i,
        {
            values.push(*summary.status_counts.value(i));
            assert(count_values(counts).take(i + 1) == count_values(counts).take(i as int).push(
                counts[i as int].1,
            ));
            i += 1;
        }
        assert(count_values(counts).take(i as int) == count_values(counts));
        summary.count = sum(values.as_slice(), compute);
    }
}

fn quality_key(summary: &HttpRouteSummary) -> (r: QualityKey)
    ensures
        r.model() == quality(summary@),
{
    Reverse {
        key: (
            summary.total_ms.is_some(),
            (
                summary.count.is_positive(),
                (
                    summary.avg_ms.is_some(),
                    (summary.p95_ms.is_some(), summary.status_counts.len() as i64),
                ),
            ),
        ),
    }
}

fn fill(summary: &mut HttpRouteSummary, other: HttpRouteSummary)
    ensures
        final(summary)@ == filled(old(summary)@, other@),
{
    if summary.count.is_zero() {
        summary.count = other.count;
    }
    summary.total_ms = either(summary.total_ms, other.total_ms);
    summary.avg_ms = either(summary.avg_ms, other.avg_ms);
    summary.min_ms = either(summary.min_ms, other.min_ms);
    summary.p50_ms = either(summary.p50_ms, other.p50_ms);
    summary.p95_ms = either(summary.p95_ms, other.p95_ms);
    summary.p99_ms = either(summary.p99_ms, other.p99_ms);
    summary.max_ms = either(summary.max_ms, other.max_ms);
    summary.response_bytes = either(summary.response_bytes, other.response_bytes);
    if summary.status_counts.len() == 0 {
        summary.status_counts = other.status_counts;
        summary.errors = other.errors;
    }
}

fn derive_rates<F: Fn(Op) -> Number>(summary: &mut HttpRouteSummary, compute: &F)
    requires
        is_arithmetic(*compute),
    ensures
        final(summary)@ == derived(arithmetic(*compute), old(summary)@),
{
    if summary.total_ms.is_none() {
        summary.total_ms = match summary.avg_ms {
            Some(average) => Some(apply(compute, Op::Multiply(average, summary.count))),
            None => None,
        };
    }
    if summary.avg_ms.is_none() {
        summary.avg_ms = match summary.total_ms {
            Some(t) => divide(t, summary.count, compute),
            None => None,
        };
    }
    summary.error_rate = divide(summary.errors, summary.count, compute);
}

/// The summary of one route from its metrics.
fn summarize_route<F: Fn(Op) -> Number>(
    metrics: &Vec<&Metric>,
    compute: &F,
    Ghost(k): Ghost<RouteKey>,
) -> (r: HttpRouteSummary)
    requires
        is_arithmetic(*compute),
        metrics@.len() > 0,
        forall|i: int| 0 <= i < metrics@.len() ==> route_key(*#[trigger] metrics@[i]) == k,
    ensures
        r@ == route_of(arithmetic(*compute), k, derefs(metrics@)),
{
    let ghost f = arithmetic(*compute);
    let ghost all = derefs(metrics@);
    let mut sources: Vec<String> = Vec::new();
    let mut i: usize = 0;
    while i < metrics.len()
        invariant
            i <= metrics@.len(),
            all == derefs(metrics@),
            models(sources@) == all.take(i as int).map_values(by_source()),
        decreases metrics.len() - i,
    {
        let ghost was = sources@;
        sources.push(label(metrics[i], "collector"));
        assert(models(sources@) == models(was).push(source_of(all[i as int])));
        assert(all.take(i + 1).map_values(by_source()) == all.take(i as int).map_values(
            by_source(),
        ).push(source_of(all[i as int])));
        i += 1;
    }
    assert(all.take(i as int) == all);
    let groups = group_rows(metrics, &sources, Ghost(by_source()));
    let ghost names = distinct_sorted::<String>(all.map_values(by_source()));
    let ghost each = |s: Seq<char>| counted(f, source_route(k, with_key(all, by_source(), s)));
    let mut found: Vec<HttpRouteSummary> = Vec::new();
    let mut qualities: Vec<QualityKey> = Vec::new();
    let mut g: usize = 0;
    while g < groups.len()
        invariant
            is_arithmetic(*compute),
            f == arithmetic(*compute),
            all == derefs(metrics@),
            metrics@.len() > 0,
            forall|j: int| 0 <= j < metrics@.len() ==> route_key(*#[trigger] metrics@[j]) == k,
            g <= groups@.len(),
            names == distinct_sorted::<String>(all.map_values(by_source())),
            each == (|s: Seq<char>| counted(f, source_route(k, with_key(all, by_source(), s)))),
            groups@.len() == names.len(),
            forall|h: int|
                0 <= h < groups@.len() ==> derefs((#[trigger] groups@[h])@) == with_key(
                    all,
                    by_source(),
                    names[h],
                ) && groups@[h]@.len() > 0,
            route_views(found@) == names.take(g as int).map_values(each),
            models(qualities@) == found@.map_values(
                |r: HttpRouteSummary| by_quality()(r@),
            ),
        decreases groups.len() - g,
    {
        let members = &groups[g];
        let ghost part = derefs(members@);
        let first = metrics[0];
        assert(route_key(*metrics@[0]) == k);
        let mut summary = HttpRouteSummary::blank(
            label(first, "node"),
            label(first, "method"),
            label(first, "route"),
        );
        let mut j: usize = 0;
        assert(part.take(0) == Seq::<Metric>::empty());
        while j < members.len()
            invariant
                j <= members@.len(),
                part == derefs(members@),
                summary@ == source_route(k, part.take(j as int)),
            decreases members.len() - j,
        {
            assert(part.take(j + 1).drop_last() == part.take(j as int));
            assert(part.take(j + 1).last() == *members@[j as int]);
            absorb_http(&mut summary, members[j]);
            j += 1;
        }
        assert(part.take(j as int) == part);
        count_classes(&mut summary, compute);
        let ghost was = found@;
        let ghost was_qualities = qualities@;
        qualities.push(quality_key(&summary));
        found.push(summary);
        proof {
            assert(route_views(found@) == route_views(was).push(summary@));
            assert(names.take(g + 1).map_values(each) == names.take(g as int).map_values(each).push(
                each(names[g as int]),
            ));
            assert(models(qualities@) == models(was_qualities).push(quality(summary@)));
            assert(found@.map_values(|r: HttpRouteSummary| by_quality()(r@)) == was.map_values(
                |r: HttpRouteSummary| by_quality()(r@),
            ).push(quality(summary@)));
        }
        g += 1;
    }
    assert(names.take(g as int) == names);
    assert(route_views(found@) == candidates(f, k, all));
    proof {
        // Some collector has spoken of the route.
        assert(all.map_values(by_source())[0] == source_of(all[0]));
        crate::order::distinct_sorted_holds::<String>(all.map_values(by_source()));
        assert(all.map_values(by_source()).contains(source_of(all[0])));
        assert(names.contains(source_of(all[0])));
        assert(names.len() > 0);
        stable_sorted_through::<HttpRouteSummary, RouteView, QualityKey>(
            found@,
            |r: HttpRouteSummary| r@,
            by_quality(),
        );
    }
    let ghost view = |r: HttpRouteSummary| r@;
    let ghost through = |r: HttpRouteSummary| by_quality()(view(r));
    assert(found@.map_values(|r: HttpRouteSummary| by_quality()(r@)) == found@.map_values(through));
    let ranked = sort_by_keys(found, &qualities, Ghost(through));
    let ghost order = route_views(ranked@);
    assert(order == stable_sorted::<RouteView, QualityKey>(
        candidates(f, k, all),
        by_quality(),
    ));
    let mut best: Option<HttpRouteSummary> = None;
    let ghost ranked_all = ranked@;
    for candidate in it: ranked
        invariant
            it.seq() == ranked_all,
            order == route_views(ranked_all),
            it.index() == 0 ==> best is None,
            it.index() > 0 ==> best is Some && best->0@ == merged(order.take(it.index() as int)),
    {
        let ghost n = it.index() as int;
        assert(order[n] == candidate@);
        assert(order.take(n + 1).drop_last() == order.take(n));
        best = match best {
            None => {
                assert(order.take(1)[0] == candidate@);
                Some(candidate)
            },
            Some(summary) => {
                let mut summary = summary;
                fill(&mut summary, candidate);
                Some(summary)
            },
        };
    }
    assert(order.take(order.len() as int) == order);
    let mut summary = best.unwrap();
    derive_rates(&mut summary, compute);
    summary
}

/// Summarizes the requests of each route.
pub fn http_routes<F: Fn(Op) -> Number>(metrics: &[Metric], compute: &F) -> (r: Vec<
    HttpRouteSummary,
>)
    requires
        is_arithmetic(*compute),
    ensures
        route_views(r@) == routes(arithmetic(*compute), metrics@),
        route_views(r@).map_values(by_http()).no_duplicates(),
{
    let ghost f = arithmetic(*compute);
    proof {
        routes_are_distinct(f, metrics@);
    }
    let mut flags: Vec<bool> = Vec::new();
    let mut i: usize = 0;
    while i < metrics.len()
        invariant
            i <= metrics@.len(),
            flags@.len() == i,
            forall|j: int| 0 <= j < i ==> #[trigger] flags@[j] == is_of_route()(metrics@[j]),
        decreases metrics.len() - i,
    {
        let m = &metrics[i];
        flags.push(m.timestamp.is_none() && m.labels.has("method") && m.labels.has("route"));
        i += 1;
    }
    let chosen = keep(metrics, &flags, Ghost(is_of_route()));
    let ghost all = derefs(chosen@);
    let mut keys: Vec<(String, (String, String))> = Vec::new();
    let mut j: usize = 0;
    while j < chosen.len()
        invariant
            j <= chosen@.len(),
            all == derefs(chosen@),
            models(keys@) == all.take(j as int).map_values(by_route()),
        decreases chosen.len() - j,
    {
        let m = chosen[j];
        let ghost was = keys@;
        keys.push((label(m, "node"), (label(m, "method"), label(m, "route"))));
        assert(models(keys@) == models(was).push(route_key(all[j as int])));
        assert(all.take(j + 1).map_values(by_route()) == all.take(j as int).map_values(
            by_route(),
        ).push(route_key(all[j as int])));
        j += 1;
    }
    assert(all.take(j as int) == all);
    let groups = group_rows(&chosen, &keys, Ghost(by_route()));
    let ghost names = distinct_sorted::<(String, (String, String))>(all.map_values(by_route()));
    let ghost each = |k: RouteKey| route_of(f, k, with_key(all, by_route(), k));
    let mut found: Vec<HttpRouteSummary> = Vec::new();
    let mut ranks: Vec<RouteTimeKey> = Vec::new();
    let ghost view = |r: HttpRouteSummary| r@;
    let ghost through = |r: HttpRouteSummary| by_route_time()(view(r));
    let mut g: usize = 0;
    while g < groups.len()
        invariant
            is_arithmetic(*compute),
            f == arithmetic(*compute),
            g <= groups@.len(),
            names == distinct_sorted::<(String, (String, String))>(all.map_values(by_route())),
            each == (|k: RouteKey| route_of(f, k, with_key(all, by_route(), k))),
            view == (|r: HttpRouteSummary| r@),
            through == (|r: HttpRouteSummary| by_route_time()(view(r))),
            groups@.len() == names.len(),
            forall|h: int|
                0 <= h < groups@.len() ==> derefs((#[trigger] groups@[h])@) == with_key(
                    all,
                    by_route(),
                    names[h],
                ) && groups@[h]@.len() > 0,
            route_views(found@) == names.take(g as int).map_values(each),
            models(ranks@) == found@.map_values(through),
        decreases groups.len() - g,
    {
        let members = &groups[g];
        proof {
            let part = derefs(members@);
            let k = names[g as int];
            assert forall|x: int| 0 <= x < members@.len() implies route_key(
                *#[trigger] members@[x],
            ) == k by {
                assert(part[x] == *members@[x]);
                crate::join::with_key_holds(all, by_route(), k, x);
            }
        }
        let summary = summarize_route(members, compute, Ghost(names[g as int]));
        let ghost was = found@;
        let ghost was_ranks = ranks@;
        ranks.push(
            (
                Reverse { key: zero_if_none(summary.total_ms) },
                (Reverse { key: summary.count }, summary.route.clone()),
            ),
        );
        found.push(summary);
        proof {
            assert(route_views(found@) == route_views(was).push(summary@));
            assert(names.take(g + 1).map_values(each) == names.take(g as int).map_values(each).push(
                each(names[g as int]),
            ));
            assert(models(ranks@) == models(was_ranks).push(through(summary)));
            assert(found@.map_values(through) == was.map_values(through).push(through(summary)));
        }
        g += 1;
    }
    assert(names.take(g as int) == names);
    proof {
        stable_sorted_through::<HttpRouteSummary, RouteView, RouteTimeKey>(
            found@,
            view,
            by_route_time(),
        );
    }
    sort_by_keys(found, &ranks, Ghost(through))
}

/// The calls of one statement on one node.
#[derive(Debug)]
pub struct DatabaseSummary {
    pub node: String,
    pub engine: String,
    pub digest: String,
    pub source: String,
    /// The part of the benchmark that the values cover, where the collector told parts apart.
    pub window: Option<String>,
    /// Tells statements apart whose shown digest was cut short.
    pub digest_id: Option<String>,
    pub calls: Number,
    pub total_ms: Number,
    pub avg_ms: Option<Number>,
    pub p95_ms: Option<Number>,
    pub lock_ms: Number,
    pub rows_sent: Number,
    pub rows_examined: Number,
    pub rows_examined_per_call: Option<Number>,
}

/// The mathematical value of a statement summary.
#[verifier::ext_equal]
pub struct QueryView {
    pub node: Seq<char>,
    pub engine: Seq<char>,
    pub digest: Seq<char>,
    pub source: Seq<char>,
    pub window: Option<Seq<char>>,
    pub digest_id: Option<Seq<char>>,
    pub calls: Number,
    pub total_ms: Number,
    pub avg_ms: Option<Number>,
    pub p95_ms: Option<Number>,
    pub lock_ms: Number,
    pub rows_sent: Number,
    pub rows_examined: Number,
    pub rows_examined_per_call: Option<Number>,
}

pub open spec fn text_option(value: Option<String>) -> Option<Seq<char>> {
    match value {
        Some(v) => Some(v@),
        None => None,
    }
}

impl View for DatabaseSummary {
    type V = QueryView;

    open spec fn view(&self) -> QueryView {
        QueryView {
            node: self.node@,
            engine: self.engine@,
            digest: self.digest@,
            source: self.source@,
            window: text_option(self.window),
            digest_id: text_option(self.digest_id),
            calls: self.calls,
            total_ms: self.total_ms,
            avg_ms: self.avg_ms,
            p95_ms: self.p95_ms,
            lock_ms: self.lock_ms,
            rows_sent: self.rows_sent,
            rows_examined: self.rows_examined,
            rows_examined_per_call: self.rows_examined_per_call,
        }
    }
}

pub open spec fn query_views(rows: Seq<DatabaseSummary>) -> Seq<QueryView> {
    rows.map_values(|r: DatabaseSummary| r@)
}

/// A node, an engine, a digest, a collector, a window and the mark of a digest that was cut.
pub type QueryKeyModel = (
    Seq<char>,
    (Seq<char>, (Seq<char>, (Seq<char>, (Option<Seq<char>>, Option<Seq<char>>)))),
);

pub type QueryKey = (
    String,
    (String, (String, (String, (Option<String>, Option<String>)))),
);

pub open spec fn of_query(metric: Metric) -> bool {
    lookup(metric.labels@, "digest"@) is Some
}

pub open spec fn query_key(metric: Metric) -> QueryKeyModel {
    (
        label_or_dash(metric, "node"@),
        (
            label_or_dash(metric, "engine"@),
            (
                label_or_dash(metric, "digest"@),
                (
                    source_of(metric),
                    (lookup(metric.labels@, "window"@), lookup(metric.labels@, "digest_id"@)),
                ),
            ),
        ),
    )
}

pub open spec fn blank_query(k: QueryKeyModel) -> QueryView {
    QueryView {
        node: k.0,
        engine: k.1.0,
        digest: k.1.1.0,
        source: k.1.1.1.0,
        window: k.1.1.1.1.0,
        digest_id: k.1.1.1.1.1,
        calls: Number::zero_spec(),
        total_ms: Number::zero_spec(),
        avg_ms: None,
        p95_ms: None,
        lock_ms: Number::zero_spec(),
        rows_sent: Number::zero_spec(),
        rows_examined: Number::zero_spec(),
        rows_examined_per_call: None,
    }
}

pub open spec fn absorb_query(v: QueryView, m: Metric) -> QueryView {
    if m.name@ == "db.query.calls"@ {
        QueryView { calls: m.value, ..v }
    } else if m.name@ == "db.query.total_duration"@ {
        QueryView { total_ms: m.value, ..v }
    } else if m.name@ == "db.query.p95_duration"@ {
        QueryView { p95_ms: Some(m.value), ..v }
    } else if m.name@ == "db.query.lock_duration"@ {
        QueryView { lock_ms: m.value, ..v }
    } else if m.name@ == "db.query.rows_sent"@ {
        QueryView { rows_sent: m.value, ..v }
    } else if m.name@ == "db.query.rows_examined"@ {
        QueryView { rows_examined: m.value, ..v }
    } else {
        v
    }
}

/// What the metrics of one statement say of it; later ones take the place of earlier ones.
pub open spec fn query_fold(k: QueryKeyModel, metrics: Seq<Metric>) -> QueryView
    decreases metrics.len(),
{
    if metrics.len() == 0 {
        blank_query(k)
    } else {
        absorb_query(query_fold(k, metrics.drop_last()), metrics.last())
    }
}

pub open spec fn query_of(
    f: spec_fn(Op) -> Number,
    k: QueryKeyModel,
    metrics: Seq<Metric>,
) -> QueryView {
    let v = query_fold(k, metrics);
    QueryView {
        avg_ms: quotient(f, v.total_ms, v.calls),
        rows_examined_per_call: quotient(f, v.rows_examined, v.calls),
        ..v
    }
}

pub open spec fn is_of_query() -> spec_fn(Metric) -> bool {
    |m: Metric| of_query(m)
}

pub open spec fn by_query() -> spec_fn(Metric) -> QueryKeyModel {
    |m: Metric| query_key(m)
}

/// Statements come by total time, the largest first, then by digest.
pub open spec fn by_query_time() -> spec_fn(QueryView) -> (int, Seq<char>) {
    |v: QueryView| (v.total_ms.place(), v.digest)
}

pub type QueryTimeKey = (Reverse<Number>, String);

/// The summaries of all statements.
pub open spec fn queries(f: spec_fn(Op) -> Number, metrics: Seq<Metric>) -> Seq<QueryView> {
    let chosen = metrics.filter(is_of_query());
    stable_sorted::<QueryView, QueryTimeKey>(
        distinct_sorted::<QueryKey>(chosen.map_values(by_query())).map_values(
            |k: QueryKeyModel| query_of(f, k, with_key(chosen, by_query(), k)),
        ),
        by_query_time(),
    )
}

proof fn query_keeps_its_key(k: QueryKeyModel, metrics: Seq<Metric>)
    ensures
        by_database()(query_fold(k, metrics)) == k,
    decreases metrics.len(),
{
    if metrics.len() > 0 {
        query_keeps_its_key(k, metrics.drop_last());
    }
}

/// No two summaries are of one statement in one window on one node.
pub proof fn queries_are_distinct(f: spec_fn(Op) -> Number, metrics: Seq<Metric>)
    ensures
        queries(f, metrics).map_values(by_database()).no_duplicates(),
{
    let chosen = metrics.filter(is_of_query());
    let keys = chosen.map_values(by_query());
    let names = distinct_sorted::<QueryKey>(keys);
    let make = |k: QueryKeyModel| query_of(f, k, with_key(chosen, by_query(), k));
    assert forall|i: int| 0 <= i < names.len() implies by_database()(make(#[trigger] names[i]))
        == names[i] by {
        query_keeps_its_key(names[i], with_key(chosen, by_query(), names[i]));
    }
    rows_of_keys_are_distinct::<QueryView, QueryKey, QueryTimeKey>(
        keys,
        make,
        by_query_time(),
        by_database(),
    );
}

fn absorb_database(summary: &mut DatabaseSummary, metric: &Metric)
    ensures
        final(summary)@ == absorb_query(old(summary)@, *metric),
{
    let name = metric.name.as_str();
    if same(name, "db.query.calls") {
        summary.calls = metric.value;
    } else if same(name, "db.query.total_duration") {
        summary.total_ms = metric.value;
    } else if same(name, "db.query.p95_duration") {
        summary.p95_ms = Some(metric.value);
    } else if same(name, "db.query.lock_duration") {
        summary.lock_ms = metric.value;
    } else if same(name, "db.query.rows_sent") {
        summary.rows_sent = metric.value;
    } else if same(name, "db.query.rows_examined") {
        summary.rows_examined = metric.value;
    }
}

fn optional_label(metric: &Metric, name: &str) -> (r: Option<String>)
    ensures
        text_option(r) == lookup(metric.labels@, name@),
{
    match metric.labels.get(name) {
        Some(value) => Some(value.clone()),
        None => None,
    }
}

fn summarize_query<F: Fn(Op) -> Number>(
    metrics: &Vec<&Metric>,
    compute: &F,
    Ghost(k): Ghost<QueryKeyModel>,
) -> (r: DatabaseSummary)
    requires
        is_arithmetic(*compute),
        metrics@.len() > 0,
        forall|i: int| 0 <= i < metrics@.len() ==> query_key(*#[trigger] metrics@[i]) == k,
    ensures
        r@ == query_of(arithmetic(*compute), k, derefs(metrics@)),
{
    let first = metrics[0];
    assert(query_key(*metrics@[0]) == k);
    let mut summary = DatabaseSummary {
        node: label(first, "node"),
        engine: label(first, "engine"),
        digest: label(first, "digest"),
        source: label(first, "collector"),
        window: optional_label(first, "window"),
        digest_id: optional_label(first, "digest_id"),
        calls: Number::zero(),
        total_ms: Number::zero(),
        avg_ms: None,
        p95_ms: None,
        lock_ms: Number::zero(),
        rows_sent: Number::zero(),
        rows_examined: Number::zero(),
        rows_examined_per_call: None,
    };
    let ghost all = derefs(metrics@);
    let mut i: usize = 0;
    assert(all.take(0) == Seq::<Metric>::empty());
    assert(summary@ == blank_query(k));
    while i < metrics.len()
        invariant
            i <= metrics@.len(),
            all == derefs(metrics@),
            summary@ == query_fold(k, all.take(i as int)),
        decreases metrics.len() - i,
    {
        assert(all.take(i + 1).drop_last() == all.take(i as int));
        assert(all.take(i + 1).last() == *metrics@[i as int]);
        absorb_database(&mut summary, metrics[i]);
        i += 1;
    }
    assert(all.take(i as int) == all);
    summary.avg_ms = divide(summary.total_ms, summary.calls, compute);
    summary.rows_examined_per_call = divide(summary.rows_examined, summary.calls, compute);
    summary
}

/// Summarizes the calls of each statement.
pub fn database_queries<F: Fn(Op) -> Number>(metrics: &[Metric], compute: &F) -> (r: Vec<
    DatabaseSummary,
>)
    requires
        is_arithmetic(*compute),
    ensures
        query_views(r@) == queries(arithmetic(*compute), metrics@),
        query_views(r@).map_values(by_database()).no_duplicates(),
{
    let ghost f = arithmetic(*compute);
    proof {
        queries_are_distinct(f, metrics@);
    }
    let mut flags: Vec<bool> = Vec::new();
    let mut i: usize = 0;
    while i < metrics.len()
        invariant
            i <= metrics@.len(),
            flags@.len() == i,
            forall|j: int| 0 <= j < i ==> #[trigger] flags@[j] == is_of_query()(metrics@[j]),
        decreases metrics.len() - i,
    {
        flags.push(metrics[i].labels.has("digest"));
        i += 1;
    }
    let chosen = keep(metrics, &flags, Ghost(is_of_query()));
    let ghost all = derefs(chosen@);
    let mut keys: Vec<QueryKey> = Vec::new();
    let mut j: usize = 0;
    while j < chosen.len()
        invariant
            j <= chosen@.len(),
            all == derefs(chosen@),
            models(keys@) == all.take(j as int).map_values(by_query()),
        decreases chosen.len() - j,
    {
        let m = chosen[j];
        let ghost was = keys@;
        keys.push(
            (
                label(m, "node"),
                (
                    label(m, "engine"),
                    (
                        label(m, "digest"),
                        (
                            label(m, "collector"),
                            (optional_label(m, "window"), optional_label(m, "digest_id")),
                        ),
                    ),
                ),
            ),
        );
        assert(models(keys@) == models(was).push(query_key(all[j as int])));
        assert(all.take(j + 1).map_values(by_query()) == all.take(j as int).map_values(
            by_query(),
        ).push(query_key(all[j as int])));
        j += 1;
    }
    assert(all.take(j as int) == all);
    let groups = group_rows(&chosen, &keys, Ghost(by_query()));
    let ghost names = distinct_sorted::<QueryKey>(all.map_values(by_query()));
    let ghost each = |k: QueryKeyModel| query_of(f, k, with_key(all, by_query(), k));
    let mut found: Vec<DatabaseSummary> = Vec::new();
    let mut ranks: Vec<QueryTimeKey> = Vec::new();
    let ghost view = |r: DatabaseSummary| r@;
    let ghost through = |r: DatabaseSummary| by_query_time()(view(r));
    let mut g: usize = 0;
    while g < groups.len()
        invariant
            is_arithmetic(*compute),
            f == arithmetic(*compute),
            g <= groups@.len(),
            names == distinct_sorted::<QueryKey>(all.map_values(by_query())),
            each == (|k: QueryKeyModel| query_of(f, k, with_key(all, by_query(), k))),
            view == (|r: DatabaseSummary| r@),
            through == (|r: DatabaseSummary| by_query_time()(view(r))),
            groups@.len() == names.len(),
            forall|h: int|
                0 <= h < groups@.len() ==> derefs((#[trigger] groups@[h])@) == with_key(
                    all,
                    by_query(),
                    names[h],
                ) && groups@[h]@.len() > 0,
            query_views(found@) == names.take(g as int).map_values(each),
            models(ranks@) == found@.map_values(through),
        decreases groups.len() - g,
    {
        let members = &groups[g];
        proof {
            let part = derefs(members@);
            let k = names[g as int];
            assert forall|x: int| 0 <= x < members@.len() implies query_key(
                *#[trigger] members@[x],
            ) == k by {
                assert(part[x] == *members@[x]);
                crate::join::with_key_holds(all, by_query(), k, x);
            }
        }
        let summary = summarize_query(members, compute, Ghost(names[g as int]));
        let ghost was = found@;
        let ghost was_ranks = ranks@;
        ranks.push((Reverse { key: summary.total_ms }, summary.digest.clone()));
        found.push(summary);
        proof {
            assert(query_views(found@) == query_views(was).push(summary@));
            assert(names.take(g + 1).map_values(each) == names.take(g as int).map_values(each).push(
                each(names[g as int]),
            ));
            assert(models(ranks@) == models(was_ranks).push(through(summary)));
            assert(found@.map_values(through) == was.map_values(through).push(through(summary)));
        }
        g += 1;
    }
    assert(names.take(g as int) == names);
    proof {
        stable_sorted_through::<DatabaseSummary, QueryView, QueryTimeKey>(
            found@,
            view,
            by_query_time(),
        );
    }
    sort_by_keys(found, &ranks, Ghost(through))
}

/// The share of one symbol in the samples of one node.
#[derive(Debug)]
pub struct CpuSummary {
    pub node: String,
    pub process: String,
    pub binary: String,
    pub symbol: String,
    pub source: String,
    pub sample_percent: Number,
}

/// The mathematical value of a symbol summary.
#[verifier::ext_equal]
pub struct SymbolView {
    pub node: Seq<char>,
    pub process: Seq<char>,
    pub binary: Seq<char>,
    pub symbol: Seq<char>,
    pub source: Seq<char>,
    pub sample_percent: Number,
}

impl View for CpuSummary {
    type V = SymbolView;

    open spec fn view(&self) -> SymbolView {
        SymbolView {
            node: self.node@,
            process: self.process@,
            binary: self.binary@,
            symbol: self.symbol@,
            source: self.source@,
            sample_percent: self.sample_percent,
        }
    }
}

pub open spec fn symbol_views(rows: Seq<CpuSummary>) -> Seq<SymbolView> {
    rows.map_values(|r: CpuSummary| r@)
}

pub open spec fn is_of_symbol() -> spec_fn(Metric) -> bool {
    |m: Metric| m.name@ == "cpu.sample_percent"@
}

pub open spec fn symbol_of() -> spec_fn(Metric) -> SymbolView {
    |m: Metric|
        SymbolView {
            node: label_or_dash(m, "node"@),
            process: label_or_dash(m, "process"@),
            binary: label_or_dash(m, "binary"@),
            symbol: label_or_dash(m, "symbol"@),
            source: source_of(m),
            sample_percent: m.value,
        }
}

/// Symbols come by share, the largest first, then by name.
pub open spec fn by_share() -> spec_fn(SymbolView) -> (int, Seq<char>) {
    |v: SymbolView| (v.sample_percent.place(), v.symbol)
}

pub type ShareKey = (Reverse<Number>, String);

pub open spec fn symbols(metrics: Seq<Metric>) -> Seq<SymbolView> {
    stable_sorted::<SymbolView, ShareKey>(
        metrics.filter(is_of_symbol()).map_values(symbol_of()),
        by_share(),
    )
}

/// Lists the sampled symbols.
pub fn cpu_symbols(metrics: &[Metric]) -> (r: Vec<CpuSummary>)
    ensures
        symbol_views(r@) == symbols(metrics@),
{
    let mut flags: Vec<bool> = Vec::new();
    let mut i: usize = 0;
    while i < metrics.len()
        invariant
            i <= metrics@.len(),
            flags@.len() == i,
            forall|j: int| 0 <= j < i ==> #[trigger] flags@[j] == is_of_symbol()(metrics@[j]),
        decreases metrics.len() - i,
    {
        flags.push(same(metrics[i].name.as_str(), "cpu.sample_percent"));
        i += 1;
    }
    let chosen = keep(metrics, &flags, Ghost(is_of_symbol()));
    let ghost all = derefs(chosen@);
    let mut found: Vec<CpuSummary> = Vec::new();
    let mut ranks: Vec<ShareKey> = Vec::new();
    let ghost view = |r: CpuSummary| r@;
    let ghost through = |r: CpuSummary| by_share()(view(r));
    let mut j: usize = 0;
    while j < chosen.len()
        invariant
            j <= chosen@.len(),
            all == derefs(chosen@),
            view == (|r: CpuSummary| r@),
            through == (|r: CpuSummary| by_share()(view(r))),
            symbol_views(found@) == all.take(j as int).map_values(symbol_of()),
            models(ranks@) == found@.map_values(through),
        decreases chosen.len() - j,
    {
        let m = chosen[j];
        let summary = CpuSummary {
            node: label(m, "node"),
            process: label(m, "process"),
            binary: label(m, "binary"),
            symbol: label(m, "symbol"),
            source: label(m, "collector"),
            sample_percent: m.value,
        };
        let ghost was = found@;
        let ghost was_ranks = ranks@;
        ranks.push((Reverse { key: summary.sample_percent }, summary.symbol.clone()));
        found.push(summary);
        proof {
            assert(symbol_views(found@) == symbol_views(was).push(summary@));
            assert(all.take(j + 1).map_values(symbol_of()) == all.take(j as int).map_values(
                symbol_of(),
            ).push(symbol_of()(all[j as int])));
            assert(models(ranks@) == models(was_ranks).push(through(summary)));
            assert(found@.map_values(through) == was.map_values(through).push(through(summary)));
        }
        j += 1;
    }
    assert(all.take(j as int) == all);
    proof {
        stable_sorted_through::<CpuSummary, SymbolView, ShareKey>(found@, view, by_share());
    }
    sort_by_keys(found, &ranks, Ghost(through))
}

/// One host metric of one node.
#[derive(Debug)]
pub struct HostSummary {
    pub node: String,
    pub metric: String,
    pub target: String,
    pub source: String,
    pub unit: String,
    pub average: Number,
    pub peak: Number,
    pub peak_at: Option<Moment>,
}

/// The mathematical value of a host summary.
#[verifier::ext_equal]
pub struct HostView {
    pub node: Seq<char>,
    pub metric: Seq<char>,
    pub target: Seq<char>,
    pub source: Seq<char>,
    pub unit: Seq<char>,
    pub average: Number,
    pub peak: Number,
    pub peak_at: Option<Moment>,
}

impl View for HostSummary {
    type V = HostView;

    open spec fn view(&self) -> HostView {
        HostView {
            node: self.node@,
            metric: self.metric@,
            target: self.target@,
            source: self.source@,
            unit: self.unit@,
            average: self.average,
            peak: self.peak,
            peak_at: self.peak_at,
        }
    }
}

pub open spec fn host_views(rows: Seq<HostSummary>) -> Seq<HostView> {
    rows.map_values(|r: HostSummary| r@)
}

pub open spec fn is_of_host() -> spec_fn(Metric) -> bool {
    |m: Metric| starts(m.name@, "host."@)
}

/// The device that a host metric is about, or the host itself.
pub open spec fn target_of(metric: Metric) -> Seq<char> {
    match lookup(metric.labels@, "device"@) {
        Some(device) => device,
        None => "host"@,
    }
}

/// What a host metric measures, whichever collector measured it.
pub open spec fn host_subject() -> spec_fn(Metric) -> (Seq<char>, (Seq<char>, Seq<char>)) {
    |m: Metric| (label_or_dash(m, "node"@), (m.name@, target_of(m)))
}

pub type HostKeyModel = (Seq<char>, (Seq<char>, (Seq<char>, Seq<char>)));

pub type HostKey = (String, (String, (String, String)));

pub open spec fn by_host() -> spec_fn(Metric) -> HostKeyModel {
    |m: Metric| (label_or_dash(m, "node"@), (m.name@, (target_of(m), source_of(m))))
}

/// An aggregate that no sample stands for.
pub open spec fn is_unsampled(series: Seq<Metric>) -> spec_fn(Metric) -> bool {
    |m: Metric|
        is_of_host()(m) && !series.filter(is_of_host()).map_values(host_subject()).contains(
            host_subject()(m),
        )
}

/// The host metrics to summarize: every sample, and the aggregates of what was not sampled.
pub open spec fn host_inputs(summary: Seq<Metric>, series: Seq<Metric>) -> Seq<Metric> {
    series.filter(is_of_host()) + summary.filter(is_unsampled(series))
}

pub open spec fn metric_values(metrics: Seq<Metric>) -> Seq<Number> {
    metrics.map_values(|m: Metric| m.value)
}

/// The first of the largest values.
pub open spec fn peak_of(metrics: Seq<Metric>) -> Metric
    decreases metrics.len(),
{
    if metrics.len() <= 1 {
        metrics[0]
    } else {
        let before = peak_of(metrics.drop_last());
        if metrics.last().value.exceeds(before.value) {
            metrics.last()
        } else {
            before
        }
    }
}

pub open spec fn host_of(
    f: spec_fn(Op) -> Number,
    k: HostKeyModel,
    metrics: Seq<Metric>,
) -> HostView {
    HostView {
        node: k.0,
        metric: k.1.0,
        target: k.1.1.0,
        source: k.1.1.1,
        unit: metrics[0].unit@,
        average: f(
            Op::Divide(
                total_from(f, Number::zero_spec(), metric_values(metrics)),
                count_value(f, metrics.len()),
            ),
        ),
        peak: peak_of(metrics).value,
        peak_at: peak_of(metrics).timestamp,
    }
}

/// The summaries of all host metrics, by node, name, device and collector.
pub open spec fn hosts(
    f: spec_fn(Op) -> Number,
    summary: Seq<Metric>,
    series: Seq<Metric>,
) -> Seq<HostView> {
    let chosen = host_inputs(summary, series);
    distinct_sorted::<HostKey>(chosen.map_values(by_host())).map_values(
        |k: HostKeyModel| host_of(f, k, with_key(chosen, by_host(), k)),
    )
}

fn is_host_metric(metric: &Metric) -> (r: bool)
    ensures
        r == is_of_host()(*metric),
{
    let name = chars_of(metric.name.as_str());
    let prefix = chars_of("host.");
    starts_with(name.as_slice(), prefix.as_slice())
}

fn target(metric: &Metric) -> (r: String)
    ensures
        r@ == target_of(*metric),
{
    match metric.labels.get("device") {
        Some(device) => device.clone(),
        None => "host".to_string(),
    }
}

fn same_subject(a: &Metric, b: &Metric) -> (r: bool)
    ensures
        r == (host_subject()(*a) == host_subject()(*b)),
{
    same(label(a, "node").as_str(), label(b, "node").as_str()) && same(
        a.name.as_str(),
        b.name.as_str(),
    ) && same(target(a).as_str(), target(b).as_str())
}

fn summarize_host<F: Fn(Op) -> Number>(
    metrics: &Vec<&Metric>,
    compute: &F,
    Ghost(k): Ghost<HostKeyModel>,
) -> (r: HostSummary)
    requires
        is_arithmetic(*compute),
        metrics@.len() > 0,
        forall|i: int| 0 <= i < metrics@.len() ==> by_host()(*#[trigger] metrics@[i]) == k,
    ensures
        r@ == host_of(arithmetic(*compute), k, derefs(metrics@)),
{
    let first = metrics[0];
    assert(by_host()(*metrics@[0]) == k);
    let ghost all = derefs(metrics@);
    let mut values: Vec<Number> = Vec::new();
    let mut peak: &Metric = first;
    let mut i: usize = 0;
    while i < metrics.len()
        invariant
            i <= metrics@.len(),
            metrics@.len() > 0,
            all == derefs(metrics@),
            values@ == metric_values(all).take(i as int),
            i == 0 ==> *peak == all[0],
            i > 0 ==> *peak == peak_of(all.take(i as int)),
        decreases metrics.len() - i,
    {
        let m = metrics[i];
        assert(all[i as int] == *m);
        assert(all.take(i + 1).drop_last() == all.take(i as int));
        assert(all.take(i + 1).last() == *m);
        values.push(m.value);
        assert(metric_values(all).take(i + 1) == metric_values(all).take(i as int).push(m.value));
        if i > 0 && m.value.greater(peak.value) {
            peak = m;
        }
        i += 1;
    }
    assert(all.take(i as int) == all);
    assert(metric_values(all).take(i as int) == metric_values(all));
    let sum = sum_from(Number::zero(), values.as_slice(), compute);
    let count = apply(compute, Op::Integer(metrics.len() as i64));
    HostSummary {
        node: label(first, "node"),
        metric: first.name.clone(),
        target: target(first),
        source: label(first, "collector"),
        unit: first.unit.clone(),
        average: apply(compute, Op::Divide(sum, count)),
        peak: peak.value,
        peak_at: peak.timestamp,
    }
}

/// Summarizes the host metrics of each node.
pub fn host_metrics<F: Fn(Op) -> Number>(
    summary: &[Metric],
    series: &[Metric],
    compute: &F,
) -> (r: Vec<HostSummary>)
    requires
        is_arithmetic(*compute),
    ensures
        host_views(r@) == hosts(arithmetic(*compute), summary@, series@),
{
    let ghost f = arithmetic(*compute);
    let mut flags: Vec<bool> = Vec::new();
    let mut i: usize = 0;
    while i < series.len()
        invariant
            i <= series@.len(),
            flags@.len() == i,
            forall|j: int| 0 <= j < i ==> #[trigger] flags@[j] == is_of_host()(series@[j]),
        decreases series.len() - i,
    {
        flags.push(is_host_metric(&series[i]));
        i += 1;
    }
    let mut chosen = keep(series, &flags, Ghost(is_of_host()));
    let ghost sampled = derefs(chosen@);
    let ghost subjects = sampled.map_values(host_subject());
    let mut others: Vec<bool> = Vec::new();
    let mut j: usize = 0;
    while j < summary.len()
        invariant
            j <= summary@.len(),
            sampled == derefs(chosen@),
            sampled == series@.filter(is_of_host()),
            subjects == sampled.map_values(host_subject()),
            others@.len() == j,
            forall|x: int|
                0 <= x < j ==> #[trigger] others@[x] == is_unsampled(series@)(summary@[x]),
        decreases summary.len() - j,
    {
        let m = &summary[j];
        let mut known = false;
        let mut x: usize = 0;
        while x < chosen.len()
            invariant
                x <= chosen@.len(),
                sampled == derefs(chosen@),
                subjects == sampled.map_values(host_subject()),
                known == exists|y: int| 0 <= y < x && #[trigger] subjects[y] == host_subject()(*m),
            decreases chosen.len() - x,
        {
            assert(subjects[x as int] == host_subject()(*chosen@[x as int]));
            if same_subject(chosen[x], m) {
                known = true;
            }
            x += 1;
        }
        assert(known == subjects.contains(host_subject()(*m)));
        others.push(is_host_metric(m) && !known);
        j += 1;
    }
    let mut rest = keep(summary, &others, Ghost(is_unsampled(series@)));
    let ghost tail = derefs(rest@);
    chosen.append(&mut rest);
    let ghost all = host_inputs(summary@, series@);
    assert(derefs(chosen@) == all);
    let mut keys: Vec<HostKey> = Vec::new();
    let mut n: usize = 0;
    while n < chosen.len()
        invariant
            n <= chosen@.len(),
            all == derefs(chosen@),
            models(keys@) == all.take(n as int).map_values(by_host()),
        decreases chosen.len() - n,
    {
        let m = chosen[n];
        let ghost was = keys@;
        keys.push((label(m, "node"), (m.name.clone(), (target(m), label(m, "collector")))));
        assert(models(keys@) == models(was).push(by_host()(all[n as int])));
        assert(all.take(n + 1).map_values(by_host()) == all.take(n as int).map_values(
            by_host(),
        ).push(by_host()(all[n as int])));
        n += 1;
    }
    assert(all.take(n as int) == all);
    let groups = group_rows(&chosen, &keys, Ghost(by_host()));
    let ghost names = distinct_sorted::<HostKey>(all.map_values(by_host()));
    let ghost each = |k: HostKeyModel| host_of(f, k, with_key(all, by_host(), k));
    let mut found: Vec<HostSummary> = Vec::new();
    let mut g: usize = 0;
    while g < groups.len()
        invariant
            is_arithmetic(*compute),
            f == arithmetic(*compute),
            g <= groups@.len(),
            names == distinct_sorted::<HostKey>(all.map_values(by_host())),
            each == (|k: HostKeyModel| host_of(f, k, with_key(all, by_host(), k))),
            groups@.len() == names.len(),
            forall|h: int|
                0 <= h < groups@.len() ==> derefs((#[trigger] groups@[h])@) == with_key(
                    all,
                    by_host(),
                    names[h],
                ) && groups@[h]@.len() > 0,
            host_views(found@) == names.take(g as int).map_values(each),
        decreases groups.len() - g,
    {
        let members = &groups[g];
        proof {
            let part = derefs(members@);
            let k = names[g as int];
            assert forall|x: int| 0 <= x < members@.len() implies by_host()(
                *#[trigger] members@[x],
            ) == k by {
                assert(part[x] == *members@[x]);
                crate::join::with_key_holds(all, by_host(), k, x);
            }
        }
        let row = summarize_host(members, compute, Ghost(names[g as int]));
        let ghost was = found@;
        found.push(row);
        proof {
            assert(host_views(found@) == host_views(was).push(row@));
            assert(names.take(g + 1).map_values(each) == names.take(g as int).map_values(each).push(
                each(names[g as int]),
            ));
        }
        g += 1;
    }
    assert(names.take(g as int) == names);
    found
}

/// The rows of a section that a report shows.
pub const COMPACT_LIMIT: usize = 20;

/// The first rows of a list, with the number of all.
#[derive(Debug)]
pub struct ReportSection<T> {
    pub total_count: usize,
    pub truncated: bool,
    pub items: Vec<T>,
}

/// `shown` holds the first `limit` of `all`, or all of them where there are no more.
pub open spec fn shortened<T>(all: Seq<T>, limit: int, shown: Seq<T>) -> bool {
    shown == all.take(if all.len() <= limit {
        all.len() as int
    } else {
        limit
    })
}

/// Cuts a list down to what a report shows.
pub fn section<T>(items: Vec<T>) -> (r: ReportSection<T>)
    ensures
        r.total_count == items@.len(),
        r.truncated == (items@.len() > COMPACT_LIMIT),
        shortened(items@, COMPACT_LIMIT as int, r.items@),
{
    let mut items = items;
    let total_count: usize = items.len();
    let ghost all = items@;
    items.truncate(COMPACT_LIMIT);
    assert(shortened(all, COMPACT_LIMIT as int, items@)) by {
        if all.len() <= COMPACT_LIMIT {
            assert(all.take(all.len() as int) == all);
        } else {
            assert(items@ == all.take(COMPACT_LIMIT as int));
        }
    }
    ReportSection { total_count, truncated: total_count > items.len(), items }
}

/// Everything that reports and comparisons of a run draw on, in full.
pub struct RunDiagnostics {
    pub run: RunManifest,
    pub coverage: Vec<CoverageSummary>,
    pub http: Vec<HttpRouteSummary>,
    pub database: Vec<DatabaseSummary>,
    pub cpu: Vec<CpuSummary>,
    pub host: Vec<HostSummary>,
    pub artifacts: Vec<ProfileArtifact>,
    pub transitions: Vec<Transition>,
    pub run_logs: String,
    pub latest_logs: Option<String>,
}

/// What a report shows of a run.
#[derive(Debug)]
pub struct RunReport {
    pub schema_version: u32,
    pub run: RunManifest,
    pub coverage: Vec<CoverageSummary>,
    pub http: ReportSection<HttpRouteSummary>,
    pub database: ReportSection<DatabaseSummary>,
    pub cpu: ReportSection<CpuSummary>,
    pub host: ReportSection<HostSummary>,
    pub artifacts: Vec<ProfileArtifact>,
    pub transitions: ReportSection<Transition>,
    pub run_logs: String,
    pub latest_logs: Option<String>,
}

pub open spec fn is_aggregate() -> spec_fn(Metric) -> bool {
    |m: Metric| m.timestamp is None
}

pub open spec fn is_sample() -> spec_fn(Metric) -> bool {
    |m: Metric| m.timestamp is Some
}

/// Parts the metrics into aggregates and samples; each part keeps its order.
fn parted(metrics: Vec<Metric>) -> (r: (Vec<Metric>, Vec<Metric>))
    ensures
        r.0@ == metrics@.filter(is_aggregate()),
        r.1@ == metrics@.filter(is_sample()),
{
    let ghost all = metrics@;
    let mut summary: Vec<Metric> = Vec::new();
    let mut series: Vec<Metric> = Vec::new();
    proof {
        reveal(Seq::filter);
        assert(all.take(0) == Seq::<Metric>::empty());
    }
    for metric in it: metrics
        invariant
            it.seq() == all,
            summary@ == all.take(it.index() as int).filter(is_aggregate()),
            series@ == all.take(it.index() as int).filter(is_sample()),
    {
        proof {
            reveal(Seq::filter);
            let n = it.index() as int;
            assert(all.take(n + 1).drop_last() == all.take(n));
            assert(all.take(n + 1).last() == metric);
        }
        if metric.timestamp.is_none() {
            summary.push(metric);
        } else {
            series.push(metric);
        }
    }
    assert(all.take(all.len() as int) == all);
    (summary, series)
}

/// `d` is what the metrics and the collectors of the run come to.
pub open spec fn diagnosed(
    f: spec_fn(Op) -> Number,
    run: RunManifest,
    metrics: Seq<Metric>,
    d: RunDiagnostics,
) -> bool {
    let summary = metrics.filter(is_aggregate());
    let series = metrics.filter(is_sample());
    &&& d.run == run
    &&& coverage_views(d.coverage@) == coverage_rows(run.collectors@, summary + series)
    &&& route_views(d.http@) == routes(f, summary)
    &&& query_views(d.database@) == queries(f, summary)
    &&& symbol_views(d.cpu@) == symbols(summary)
    &&& host_views(d.host@) == hosts(f, summary, series)
    &&& artifact_views(d.artifacts@) == artifacts(
        run.collectors@,
        d.run_logs@,
        text_option(d.latest_logs),
    )
}

/// Normalizes the records of a run.
pub fn diagnose<F: Fn(Op) -> Number>(
    run: RunManifest,
    metrics: Vec<Metric>,
    transitions: Vec<Transition>,
    run_logs: String,
    latest_logs: Option<String>,
    compute: &F,
) -> (r: RunDiagnostics)
    requires
        is_arithmetic(*compute),
    ensures
        diagnosed(arithmetic(*compute), run, metrics@, r),
        r.transitions == transitions,
        r.run_logs == run_logs,
        r.latest_logs == latest_logs,
{
    let (summary, series) = parted(metrics);
    let coverage = crate::coverage::coverage(
        run.collectors.as_slice(),
        summary.as_slice(),
        series.as_slice(),
    );
    let http = http_routes(summary.as_slice(), compute);
    let database = database_queries(summary.as_slice(), compute);
    let cpu = cpu_symbols(summary.as_slice());
    let host = host_metrics(summary.as_slice(), series.as_slice(), compute);
    let artifacts = profile_artifacts(run.collectors.as_slice(), run_logs.as_str(), &latest_logs);
    RunDiagnostics {
        run,
        coverage,
        http,
        database,
        cpu,
        host,
        artifacts,
        transitions,
        run_logs,
        latest_logs,
    }
}

/// `s` shows `all` in a report.
pub open spec fn reported<T>(all: Seq<T>, s: ReportSection<T>) -> bool {
    &&& s.total_count == all.len()
    &&& s.truncated == (all.len() > COMPACT_LIMIT)
    &&& shortened(all, COMPACT_LIMIT as int, s.items@)
}

/// `r` is the report of `d`: coverage and artifacts in full, the other sections cut.
pub open spec fn report_of(d: RunDiagnostics, r: RunReport) -> bool {
    &&& r.schema_version == 6
    &&& r.run == d.run
    &&& r.coverage == d.coverage
    &&& reported(d.http@, r.http)
    &&& reported(d.database@, r.database)
    &&& reported(d.cpu@, r.cpu)
    &&& reported(d.host@, r.host)
    &&& r.artifacts == d.artifacts
    &&& reported(d.transitions@, r.transitions)
    &&& r.run_logs == d.run_logs
    &&& r.latest_logs == d.latest_logs
}

impl RunDiagnostics {
    pub fn into_report(self) -> (r: RunReport)
        ensures
            report_of(self, r),
    {
        RunReport {
            schema_version: 6,
            run: self.run,
            coverage: self.coverage,
            http: section(self.http),
            database: section(self.database),
            cpu: section(self.cpu),
            host: section(self.host),
            artifacts: self.artifacts,
            transitions: section(self.transitions),
            run_logs: self.run_logs,
            latest_logs: self.latest_logs,
        }
    }
}

/// The report of a run.
pub fn build<F: Fn(Op) -> Number>(
    run: RunManifest,
    metrics: Vec<Metric>,
    transitions: Vec<Transition>,
    run_logs: String,
    latest_logs: Option<String>,
    compute: &F,
) -> (r: RunReport)
    requires
        is_arithmetic(*compute),
    ensures
        exists|d: RunDiagnostics|
            diagnosed(arithmetic(*compute), run, metrics@, d) && d.transitions == transitions
                && d.run_logs == run_logs && d.latest_logs == latest_logs && #[trigger] report_of(
                d,
                r,
            ),
{
    let d = diagnose(run, metrics, transitions, run_logs, latest_logs, compute);
    let ghost before = d;
    let r = d.into_report();
    assert(report_of(before, r));
    r
}

/// A section hides no row without saying so: it holds all rows exactly if it is not marked as cut.
pub proof fn sections_tell_what_they_hide<T>(all: Seq<T>, s: ReportSection<T>)
    requires
        reported(all, s),
    ensures
        !s.truncated <==> s.items@ == all,
        s.items@.len() <= COMPACT_LIMIT,
        s.items@ == all.take(s.items@.len() as int),
{
    if all.len() <= COMPACT_LIMIT {
        assert(all.take(all.len() as int) == all);
    }
    assert(s.items@ == all.take(s.items@.len() as int));
}

/// Writes the page of a run. `json` is the run as JSON.
pub fn write_html<F: Fn(Op) -> Number, S: Fn(Number, u32) -> String>(
    report: &RunReport,
    json: &str,
    compute: &F,
    show: &S,
) -> (r: String)
    requires
        is_arithmetic(*compute),
        crate::numeral::is_writer(*show),
        crate::html::peaks_dated(report.host.items@),
    ensures
        r@ == crate::html::report_page(
            arithmetic(*compute),
            crate::numeral::written(*show),
            *report,
            json@,
        ),
{
    crate::html::write_report(report, json, compute, show)
}

} // verus!
