//! Queries over the metrics of one run, and comparisons of the same query over two runs.
use crate::diff::{by_database, by_http};
use crate::join::{
    comparisons_keep_every_row, cut_names_are_distinct, derefs, group_rows, keep, pair_up,
    pairs_of, rows_of_keys_are_distinct, sort_by_keys, sorting_keeps_items, with_key,
    with_key_holds,
};
use crate::labels::{lookup, with_label, Counts, Labels, Pair, TextMap};
use crate::metric_semantics::{
    aggregate, combined, grouped_aggregation, grouped_rule, series_rule, time_series_aggregation,
    MetricAggregation,
};
use crate::model::Metric;
use crate::number::{apply, arithmetic, is_arithmetic, sum, total, Number, Op};
use crate::order::{
    distinct_sorted, distinct_sorted_holds, models, stable_sorted, stable_sorted_through, Key,
    Reverse,
};
use crate::report::{
    database_queries, http_routes, metric_values, queries, queries_are_distinct, query_views,
    route_views, routes, routes_are_distinct, shortened, text_option, DatabaseSummary, HttpRouteSummary, QueryView, RouteView,
};
pub use crate::sql_shape::sql_shape;
use crate::sql_shape::{digest_example, example_of, shape_of};
use crate::text::{
    append, append_str, chars_of, contains_text, decimal, decimal_of, find_at, find_is_first, same,
    starts, starts_with, string_of, texts,
};
use vstd::prelude::*;

verus! {

#[derive(Clone, Copy, Debug, PartialEq, Eq, Structural)]
pub enum QueryScope {
    Run,
    Series,
}

/// What to select, how to group it and how much to show.
#[derive(Clone, Debug)]
pub struct MetricQueryOptions {
    pub scope: QueryScope,
    pub window: Option<String>,
    pub metrics: Vec<String>,
    pub metric_prefix: Option<String>,
    pub node: Option<String>,
    pub source: Option<String>,
    pub labels: Vec<(String, String)>,
    pub label_contains: Vec<(String, String)>,
    pub group_by: Vec<String>,
    pub limit: usize,
}

/// What was asked for, as it is repeated in the answer.
#[derive(Debug)]
pub struct QuerySelection {
    pub window: Option<String>,
    pub metrics: Vec<String>,
    pub metric_prefix: Option<String>,
    pub node: Option<String>,
    pub source: Option<String>,
    pub labels: Vec<QueryLabelFilter>,
    pub label_contains: Vec<QueryLabelFilter>,
    pub group_by: Vec<String>,
}

#[derive(Debug)]
pub struct QueryLabelFilter {
    pub key: String,
    pub value: String,
}

#[derive(Debug)]
pub struct MetricQueryRow {
    pub metric: String,
    pub unit: String,
    pub value: Option<Number>,
    pub aggregation: MetricAggregation,
    pub exact: bool,
    pub source_rows: usize,
    pub labels: Labels,
}

#[derive(Debug)]
pub struct MetricQueryOutput {
    pub schema_version: u32,
    pub run_id: String,
    pub view: &'static str,
    pub scope: QueryScope,
    pub selection: QuerySelection,
    pub total_count: usize,
    pub truncated: bool,
    pub rows: Vec<MetricQueryRow>,
    pub warnings: Vec<String>,
}

/// The mathematical value of a metric row.
#[verifier::ext_equal]
pub struct MetricRowView {
    pub metric: Seq<char>,
    pub unit: Seq<char>,
    pub value: Option<Number>,
    pub aggregation: MetricAggregation,
    pub exact: bool,
    pub source_rows: nat,
    pub labels: Seq<Pair>,
}

impl View for MetricQueryRow {
    type V = MetricRowView;

    open spec fn view(&self) -> MetricRowView {
        MetricRowView {
            metric: self.metric@,
            unit: self.unit@,
            value: self.value,
            aggregation: self.aggregation,
            exact: self.exact,
            source_rows: self.source_rows as nat,
            labels: self.labels@,
        }
    }
}

pub open spec fn metric_row_views(rows: Seq<MetricQueryRow>) -> Seq<MetricRowView> {
    rows.map_values(|r: MetricQueryRow| r@)
}

/// The metric has every label of `wanted` with its value.
pub open spec fn has_labels(labels: Seq<Pair>, wanted: Seq<(String, String)>) -> bool {
    forall|i: int|
        0 <= i < wanted.len() ==> lookup(labels, (#[trigger] wanted[i]).0@) == Some(wanted[i].1@)
}

/// The metric has every label of `wanted` with a value that contains the text asked for.
pub open spec fn has_texts(labels: Seq<Pair>, wanted: Seq<(String, String)>) -> bool {
    forall|i: int|
        0 <= i < wanted.len() ==> lookup(labels, (#[trigger] wanted[i]).0@) is Some
            && contains_text(lookup(labels, wanted[i].0@)->0, wanted[i].1@)
}

/// The label is what was asked for, where anything was.
pub open spec fn label_is(labels: Seq<Pair>, name: Seq<char>, wanted: Option<String>) -> bool {
    wanted matches Some(w) ==> lookup(labels, name) == Some(w@)
}

/// The query selects the metric.
pub open spec fn selects(options: MetricQueryOptions, metric: Metric) -> bool {
    &&& (metric.timestamp is Some) == (options.scope == QueryScope::Series)
    &&& options.metrics@.len() == 0 || texts(options.metrics@).contains(metric.name@)
    &&& options.metric_prefix matches Some(prefix) ==> starts(metric.name@, prefix@)
    &&& label_is(metric.labels@, "node"@, options.node)
    &&& options.source is Some ==> label_is(metric.labels@, "collector"@, options.source)
        || label_is(metric.labels@, "isuscope.parser"@, options.source)
    &&& has_labels(metric.labels@, options.labels@)
    &&& has_texts(metric.labels@, options.label_contains@)
}

/// Labels that say where a value comes from: grouping never drops them.
pub open spec fn is_provenance(key: Seq<char>) -> bool {
    key == "node"@ || key == "collector"@ || key == "engine"@ || key == "isuscope.parser"@
}

pub open spec fn keeps_label(group_by: Seq<String>) -> spec_fn(Pair) -> bool {
    |p: Pair|
        group_by.len() == 0 || is_provenance(p.0) || texts(group_by).contains(p.0)
}

/// The labels by which a metric is grouped: all of them, or those asked for and those that tell
/// where it comes from.
pub open spec fn kept_labels(labels: Seq<Pair>, group_by: Seq<String>) -> Seq<Pair> {
    labels.filter(keeps_label(group_by))
}

pub type RowKeyModel = (Seq<char>, (Seq<char>, Seq<Pair>));

pub type RowKey = (String, (String, Labels));

pub open spec fn by_row(group_by: Seq<String>) -> spec_fn(Metric) -> RowKeyModel {
    |m: Metric| (m.name@, (m.unit@, kept_labels(m.labels@, group_by)))
}

/// The decimal places that a value of a unit is shown with.
pub open spec fn decimals_of(unit: Seq<char>) -> u32 {
    if unit == "queries"@ || unit == "runs"@ || unit == "checks"@ || unit == "rows"@ || unit
        == "bytes"@ || unit == "samples"@ || unit == "requests"@ {
        0
    } else if unit == "ms"@ || unit == "percent"@ {
        3
    } else {
        6
    }
}

pub open spec fn rule_of(scope: QueryScope, metric: Metric) -> MetricAggregation {
    if scope == QueryScope::Series {
        series_rule(metric)
    } else {
        grouped_rule(metric)
    }
}

pub open spec fn rounded(f: spec_fn(Op) -> Number, value: Option<Number>, decimals: u32) -> Option<
    Number,
> {
    match value {
        Some(v) => Some(f(Op::Round(v, decimals))),
        None => None,
    }
}

/// The row of one group of metrics.
pub open spec fn row_of(
    f: spec_fn(Op) -> Number,
    scope: QueryScope,
    k: RowKeyModel,
    metrics: Seq<Metric>,
) -> MetricRowView {
    let aggregation = rule_of(scope, metrics[0]);
    let value = rounded(
        f,
        combined(f, metric_values(metrics), aggregation),
        decimals_of(k.1.0),
    );
    MetricRowView {
        metric: k.0,
        unit: k.1.0,
        value,
        aggregation,
        exact: value is Some,
        source_rows: metrics.len(),
        labels: k.1.1,
    }
}

pub open spec fn is_selected(options: MetricQueryOptions) -> spec_fn(Metric) -> bool {
    |m: Metric| selects(options, m)
}

pub open spec fn negative_infinity() -> Number {
    Number { bits: 0xfff0_0000_0000_0000 }
}

pub open spec fn value_or_least(value: Option<Number>) -> Number {
    match value {
        Some(v) => v,
        None => negative_infinity(),
    }
}

/// Rows come by metric, and within one metric by value, the largest first.
pub open spec fn by_metric_then_value() -> spec_fn(MetricRowView) -> (Seq<char>, int) {
    |r: MetricRowView| (r.metric, value_or_least(r.value).place())
}

pub type MetricValueKey = (String, Reverse<Number>);

/// All rows of a metric query.
pub open spec fn metric_rows(
    f: spec_fn(Op) -> Number,
    metrics: Seq<Metric>,
    options: MetricQueryOptions,
) -> Seq<MetricRowView> {
    let chosen = metrics.filter(is_selected(options));
    let key = by_row(options.group_by@);
    stable_sorted::<MetricRowView, MetricValueKey>(
        distinct_sorted::<RowKey>(chosen.map_values(key)).map_values(
            |k: RowKeyModel| row_of(f, options.scope, k, with_key(chosen, key, k)),
        ),
        by_metric_then_value(),
    )
}

pub open spec fn without_value() -> spec_fn(MetricRowView) -> bool {
    |r: MetricRowView| r.value is None
}

/// The warning about groups that have no value.
pub open spec fn merge_warning(rows: Seq<MetricRowView>) -> Seq<Seq<char>> {
    let n = rows.filter(without_value()).len();
    if n > 0 {
        seq![
            decimal(n)
                + " groups contain non-mergeable values; retain more labels or use additive components"@,
        ]
    } else {
        Seq::empty()
    }
}

pub open spec fn filter_pairs(filters: Seq<QueryLabelFilter>) -> Seq<(String, String)> {
    filters.map_values(|l: QueryLabelFilter| (l.key, l.value))
}

/// The answer repeats what was asked for.
pub open spec fn repeats(selection: QuerySelection, options: MetricQueryOptions) -> bool {
    &&& selection.window == options.window
    &&& selection.metrics == options.metrics
    &&& selection.metric_prefix == options.metric_prefix
    &&& selection.node == options.node
    &&& selection.source == options.source
    &&& filter_pairs(selection.labels@) == options.labels@
    &&& filter_pairs(selection.label_contains@) == options.label_contains@
    &&& selection.group_by == options.group_by
}

fn text_found(text: &str, needle: &str) -> (r: bool)
    ensures
        r == contains_text(text@, needle@),
{
    let text = chars_of(text);
    let needle = chars_of(needle);
    proof {
        find_is_first(text@, needle@, 0);
    }
    find_at(text.as_slice(), needle.as_slice(), 0).is_some()
}

fn listed(names: &Vec<String>, name: &str) -> (r: bool)
    ensures
        r == texts(names@).contains(name@),
{
    let mut i: usize = 0;
    while i < names.len()
        invariant
            i <= names@.len(),
            forall|j: int| 0 <= j < i ==> texts(names@)[j] != name@,
        decreases names.len() - i,
    {
        assert(texts(names@)[i as int] == names@[i as int]@);
        if same(names[i].as_str(), name) {
            return true;
        }
        i += 1;
    }
    false
}

fn labels_match(labels: &Labels, wanted: &Vec<(String, String)>) -> (r: bool)
    ensures
        r == has_labels(labels@, wanted@),
{
    let mut i: usize = 0;
    while i < wanted.len()
        invariant
            i <= wanted@.len(),
            forall|j: int|
                0 <= j < i ==> lookup(labels@, (#[trigger] wanted@[j]).0@) == Some(wanted@[j].1@),
        decreases wanted.len() - i,
    {
        if !labels.holds(wanted[i].0.as_str(), wanted[i].1.as_str()) {
            return false;
        }
        i += 1;
    }
    true
}

fn labels_contain(labels: &Labels, wanted: &Vec<(String, String)>) -> (r: bool)
    ensures
        r == has_texts(labels@, wanted@),
{
    let mut i: usize = 0;
    while i < wanted.len()
        invariant
            i <= wanted@.len(),
            forall|j: int|
                0 <= j < i ==> lookup(labels@, (#[trigger] wanted@[j]).0@) is Some
                    && contains_text(lookup(labels@, wanted@[j].0@)->0, wanted@[j].1@),
        decreases wanted.len() - i,
    {
        let found = match labels.get(wanted[i].0.as_str()) {
            Some(value) => text_found(value.as_str(), wanted[i].1.as_str()),
            None => false,
        };
        if !found {
            return false;
        }
        i += 1;
    }
    true
}

fn label_matches(labels: &Labels, name: &str, wanted: &Option<String>) -> (r: bool)
    ensures
        r == label_is(labels@, name@, *wanted),
{
    match wanted {
        Some(w) => labels.holds(name, w.as_str()),
        None => true,
    }
}

fn metric_matches(metric: &Metric, options: &MetricQueryOptions) -> (r: bool)
    ensures
        r == selects(*options, *metric),
{
    if metric.timestamp.is_some() != (options.scope == QueryScope::Series) {
        return false;
    }
    if options.metrics.len() > 0 && !listed(&options.metrics, metric.name.as_str()) {
        return false;
    }
    if let Some(prefix) = &options.metric_prefix {
        let name = chars_of(metric.name.as_str());
        let prefix = chars_of(prefix.as_str());
        if !starts_with(name.as_slice(), prefix.as_slice()) {
            return false;
        }
    }
    if !label_matches(&metric.labels, "node", &options.node) {
        return false;
    }
    if options.source.is_some() && !label_matches(&metric.labels, "collector", &options.source)
        && !label_matches(&metric.labels, "isuscope.parser", &options.source) {
        return false;
    }
    labels_match(&metric.labels, &options.labels) && labels_contain(
        &metric.labels,
        &options.label_contains,
    )
}

fn output_labels(metric: &Metric, group_by: &Vec<String>) -> (r: Labels)
    ensures
        r@ == kept_labels(metric.labels@, group_by@),
{
    let ghost all = metric.labels@;
    let ghost p = keeps_label(group_by@);
    let mut out = Labels::new();
    let n: usize = metric.labels.len();
    let mut i: usize = 0;
    proof {
        reveal(Seq::filter);
        assert(all.take(0) == Seq::<Pair>::empty());
        assert(out@ == all.take(0).filter(p));
    }
    while i < n
        invariant
            i <= n,
            n == all.len(),
            all == metric.labels@,
            crate::labels::ascending(all),
            p == keeps_label(group_by@),
            out@ == all.take(i as int).filter(p),
        decreases n - i,
    {
        let key = metric.labels.key(i);
        let value = metric.labels.value(i);
        let keep = group_by.len() == 0 || same(key.as_str(), "node") || same(
            key.as_str(),
            "collector",
        ) || same(key.as_str(), "engine") || same(key.as_str(), "isuscope.parser") || listed(
            group_by,
            key.as_str(),
        );
        let ghost before = out@;
        proof {
            reveal(Seq::filter);
            assert(all.take(i + 1).drop_last() == all.take(i as int));
            assert(all.take(i + 1).last() == all[i as int]);
            if before.len() > 0 {
                // The labels kept so far come before this one.
                let last = before.last();
                assert(all.take(i as int).filter(p).contains(last));
                all.take(i as int).lemma_filter_contains_rev(p, last);
                let j = choose|j: int| 0 <= j < i && all.take(i as int)[j] == last;
                assert(crate::order::text_before(all[j].0, all[i as int].0));
                crate::order::text_order(last.0, key@, last.0);
            }
        }
        if keep {
            out.insert(key.clone(), value.clone());
            assert(out@ == before.push((key@, value@)));
        }
        i += 1;
    }
    assert(all.take(i as int) == all);
    out
}

fn unit_decimals(unit: &str) -> (r: u32)
    ensures
        r == decimals_of(unit@),
{
    if same(unit, "queries") || same(unit, "runs") || same(unit, "checks") || same(unit, "rows")
        || same(unit, "bytes") || same(unit, "samples") || same(unit, "requests") {
        0
    } else if same(unit, "ms") || same(unit, "percent") {
        3
    } else {
        6
    }
}

fn round_option<F: Fn(Op) -> Number>(value: Option<Number>, decimals: u32, compute: &F) -> (r:
    Option<Number>)
    requires
        is_arithmetic(*compute),
    ensures
        r == rounded(arithmetic(*compute), value, decimals),
{
    match value {
        Some(v) => Some(apply(compute, Op::Round(v, decimals))),
        None => None,
    }
}

fn row_from<F: Fn(Op) -> Number>(
    metrics: &Vec<&Metric>,
    options: &MetricQueryOptions,
    compute: &F,
    Ghost(k): Ghost<RowKeyModel>,
) -> (r: MetricQueryRow)
    requires
        is_arithmetic(*compute),
        metrics@.len() > 0,
        forall|i: int|
            0 <= i < metrics@.len() ==> by_row(options.group_by@)(*#[trigger] metrics@[i]) == k,
    ensures
        r@ == row_of(arithmetic(*compute), options.scope, k, derefs(metrics@)),
{
    let first = metrics[0];
    assert(by_row(options.group_by@)(*metrics@[0]) == k);
    let ghost all = derefs(metrics@);
    let mut values: Vec<Number> = Vec::new();
    let mut i: usize = 0;
    while i < metrics.len()
        invariant
            i <= metrics@.len(),
            all == derefs(metrics@),
            values@ == metric_values(all).take(i as int),
        decreases metrics.len() - i,
    {
        values.push(metrics[i].value);
        assert(metric_values(all).take(i + 1) == metric_values(all).take(i as int).push(
            all[i as int].value,
        ));
        i += 1;
    }
    assert(metric_values(all).take(i as int) == metric_values(all));
    let aggregation = if options.scope == QueryScope::Series {
        time_series_aggregation(first)
    } else {
        grouped_aggregation(first)
    };
    let value = round_option(
        aggregate(values.as_slice(), aggregation, compute),
        unit_decimals(first.unit.as_str()),
        compute,
    );
    MetricQueryRow {
        metric: first.name.clone(),
        unit: first.unit.clone(),
        value,
        aggregation,
        exact: value.is_some(),
        source_rows: metrics.len(),
        labels: output_labels(first, &options.group_by),
    }
}

fn filters_from(pairs: Vec<(String, String)>) -> (r: Vec<QueryLabelFilter>)
    ensures
        filter_pairs(r@) == pairs@,
{
    let ghost all = pairs@;
    let mut out: Vec<QueryLabelFilter> = Vec::new();
    for pair in it: pairs
        invariant
            it.seq() == all,
            filter_pairs(out@) == all.take(it.index() as int),
    {
        let ghost was = out@;
        out.push(QueryLabelFilter { key: pair.0, value: pair.1 });
        assert(filter_pairs(out@) == filter_pairs(was).push(pair));
        assert(all.take(it.index() + 1) == all.take(it.index() as int).push(pair));
    }
    assert(all.take(all.len() as int) == all);
    out
}

/// Cuts a list down to `limit` rows.
fn cut_rows<T>(rows: Vec<T>, limit: usize) -> (r: Vec<T>)
    ensures
        shortened(rows@, limit as int, r@),
{
    let mut rows = rows;
    let ghost all = rows@;
    rows.truncate(limit);
    assert(shortened(all, limit as int, rows@)) by {
        if all.len() <= limit {
            assert(all.take(all.len() as int) == all);
        } else {
            assert(rows@ == all.take(limit as int));
        }
    }
    rows
}

/// `r` is the answer to a metric query about the metrics of a run.
pub open spec fn answers(
    f: spec_fn(Op) -> Number,
    run_id: Seq<char>,
    metrics: Seq<Metric>,
    options: MetricQueryOptions,
    r: MetricQueryOutput,
) -> bool {
    let rows = metric_rows(f, metrics, options);
    &&& r.schema_version == 1
    &&& r.run_id@ == run_id
    &&& r.view@ == "metrics"@
    &&& r.scope == options.scope
    &&& repeats(r.selection, options)
    &&& r.total_count == rows.len()
    &&& r.truncated == (rows.len() > options.limit)
    &&& shortened(rows, options.limit as int, metric_row_views(r.rows@))
    &&& texts(r.warnings@) == merge_warning(rows)
    &&& metric_row_views(r.rows@).map_values(by_metric_row()).no_duplicates()
}

/// No two rows of an answer are of one metric, one unit and the same labels.
pub proof fn metric_rows_are_distinct(
    f: spec_fn(Op) -> Number,
    metrics: Seq<Metric>,
    options: MetricQueryOptions,
)
    ensures
        metric_rows(f, metrics, options).map_values(by_metric_row()).no_duplicates(),
{
    let chosen = metrics.filter(is_selected(options));
    let key = by_row(options.group_by@);
    rows_of_keys_are_distinct::<MetricRowView, RowKey, MetricValueKey>(
        chosen.map_values(key),
        |k: RowKeyModel| row_of(f, options.scope, k, with_key(chosen, key, k)),
        by_metric_then_value(),
        by_metric_row(),
    );
}

/// Answers a metric query.
pub fn metric_query<F: Fn(Op) -> Number>(
    run_id: String,
    metrics: Vec<Metric>,
    options: MetricQueryOptions,
    compute: &F,
) -> (r: MetricQueryOutput)
    requires
        is_arithmetic(*compute),
    ensures
        answers(arithmetic(*compute), run_id@, metrics@, options, r),
{
    answer(run_id, metrics.as_slice(), options, compute)
}

/// Answers a metric query about metrics that are kept.
pub fn answer<F: Fn(Op) -> Number>(
    run_id: String,
    metrics: &[Metric],
    options: MetricQueryOptions,
    compute: &F,
) -> (r: MetricQueryOutput)
    requires
        is_arithmetic(*compute),
    ensures
        answers(arithmetic(*compute), run_id@, metrics@, options, r),
{
    let ghost f = arithmetic(*compute);
    let ghost asked = options;
    let mut flags: Vec<bool> = Vec::new();
    let mut i: usize = 0;
    while i < metrics.len()
        invariant
            i <= metrics@.len(),
            flags@.len() == i,
            forall|j: int| 0 <= j < i ==> #[trigger] flags@[j] == is_selected(options)(metrics@[j]),
        decreases metrics.len() - i,
    {
        flags.push(metric_matches(&metrics[i], &options));
        i += 1;
    }
    let chosen = keep(metrics, &flags, Ghost(is_selected(options)));
    let ghost all = derefs(chosen@);
    let ghost key = by_row(options.group_by@);
    let mut keys: Vec<RowKey> = Vec::new();
    let mut j: usize = 0;
    while j < chosen.len()
        invariant
            j <= chosen@.len(),
            all == derefs(chosen@),
            key == by_row(options.group_by@),
            models(keys@) == all.take(j as int).map_values(key),
        decreases chosen.len() - j,
    {
        let m = chosen[j];
        let ghost was = keys@;
        keys.push((m.name.clone(), (m.unit.clone(), output_labels(m, &options.group_by))));
        assert(models(keys@) == models(was).push(key(all[j as int])));
        assert(all.take(j + 1).map_values(key) == all.take(j as int).map_values(key).push(
            key(all[j as int]),
        ));
        j += 1;
    }
    assert(all.take(j as int) == all);
    let groups = group_rows(&chosen, &keys, Ghost(key));
    let ghost names = distinct_sorted::<RowKey>(all.map_values(key));
    let ghost each = |k: RowKeyModel| row_of(f, options.scope, k, with_key(all, key, k));
    let mut rows: Vec<MetricQueryRow> = Vec::new();
    let mut ranks: Vec<MetricValueKey> = Vec::new();
    let ghost view = |r: MetricQueryRow| r@;
    let ghost through = |r: MetricQueryRow| by_metric_then_value()(view(r));
    let mut g: usize = 0;
    while g < groups.len()
        invariant
            is_arithmetic(*compute),
            f == arithmetic(*compute),
            g <= groups@.len(),
            key == by_row(options.group_by@),
            names == distinct_sorted::<RowKey>(all.map_values(key)),
            each == (|k: RowKeyModel| row_of(f, options.scope, k, with_key(all, key, k))),
            view == (|r: MetricQueryRow| r@),
            through == (|r: MetricQueryRow| by_metric_then_value()(view(r))),
            groups@.len() == names.len(),
            forall|h: int|
                0 <= h < groups@.len() ==> derefs((#[trigger] groups@[h])@) == with_key(
                    all,
                    key,
                    names[h],
                ) && groups@[h]@.len() > 0,
            metric_row_views(rows@) == names.take(g as int).map_values(each),
            models(ranks@) == rows@.map_values(through),
        decreases groups.len() - g,
    {
        let members = &groups[g];
        proof {
            let part = derefs(members@);
            let k = names[g as int];
            assert forall|x: int| 0 <= x < members@.len() implies by_row(options.group_by@)(
                *#[trigger] members@[x],
            ) == k by {
                assert(part[x] == *members@[x]);
                with_key_holds(all, key, k, x);
            }
        }
        let row = row_from(members, &options, compute, Ghost(names[g as int]));
        let ghost was = rows@;
        let ghost was_ranks = ranks@;
        let least = Number { bits: 0xfff0_0000_0000_0000 };
        let rank = match row.value {
            Some(v) => v,
            None => least,
        };
        ranks.push((row.metric.clone(), Reverse { key: rank }));
        rows.push(row);
        proof {
            assert(metric_row_views(rows@) == metric_row_views(was).push(row@));
            assert(names.take(g + 1).map_values(each) == names.take(g as int).map_values(each).push(
                each(names[g as int]),
            ));
            assert(models(ranks@) == models(was_ranks).push(through(row)));
            assert(rows@.map_values(through) == was.map_values(through).push(through(row)));
        }
        g += 1;
    }
    assert(names.take(g as int) == names);
    proof {
        stable_sorted_through::<MetricQueryRow, MetricRowView, MetricValueKey>(
            rows@,
            view,
            by_metric_then_value(),
        );
    }
    let rows = sort_by_keys(rows, &ranks, Ghost(through));
    let ghost views = metric_row_views(rows@);
    assert(views == metric_rows(f, metrics@, options));
    let mut without: usize = 0;
    let mut n: usize = 0;
    proof {
        reveal(Seq::filter);
        assert(views.take(0) == Seq::<MetricRowView>::empty());
    }
    while n < rows.len()
        invariant
            n <= rows@.len(),
            views == metric_row_views(rows@),
            without == views.take(n as int).filter(without_value()).len(),
            without <= n,
        decreases rows.len() - n,
    {
        proof {
            reveal(Seq::filter);
            assert(views.take(n + 1).drop_last() == views.take(n as int));
            assert(views.take(n + 1).last() == rows@[n as int]@);
        }
        if rows[n].value.is_none() {
            without += 1;
        }
        n += 1;
    }
    assert(views.take(n as int) == views);
    let mut warnings: Vec<String> = Vec::new();
    if without > 0 {
        let mut text = decimal_of(without as u64);
        append_str(
            &mut text,
            " groups contain non-mergeable values; retain more labels or use additive components",
        );
        warnings.push(string_of(text.as_slice()));
    }
    assert(texts(warnings@) == merge_warning(views));
    let total_count: usize = rows.len();
    let limit = options.limit;
    let ghost all_rows = rows@;
    let shown = cut_rows(rows, limit);
    proof {
        let m = if all_rows.len() <= limit {
            all_rows.len() as int
        } else {
            limit as int
        };
        assert(metric_row_views(all_rows.take(m)) == metric_row_views(all_rows).take(m));
        metric_rows_are_distinct(f, metrics@, asked);
        cut_names_are_distinct(metric_row_views(all_rows), m, by_metric_row());
    }
    MetricQueryOutput {
        schema_version: 1,
        run_id,
        view: "metrics",
        scope: options.scope,
        selection: QuerySelection {
            window: options.window,
            metrics: options.metrics,
            metric_prefix: options.metric_prefix,
            node: options.node,
            source: options.source,
            labels: filters_from(options.labels),
            label_contains: filters_from(options.label_contains),
            group_by: options.group_by,
        },
        total_count,
        truncated: total_count > limit,
        rows: shown,
        warnings,
    }
}

/// Grouping keeps the labels that say where a value comes from: metrics of different nodes,
/// collectors, engines or parsers never fall into one row.
pub proof fn grouping_keeps_provenance(
    labels: Seq<Pair>,
    group_by: Seq<String>,
    name: Seq<char>,
)
    requires
        is_provenance(name),
        crate::labels::ascending(labels),
    ensures
        lookup(kept_labels(labels, group_by), name) == lookup(labels, name),
    decreases labels.len(),
{
    reveal(Seq::filter);
    if labels.len() > 0 {
        let rest = labels.drop_last();
        assert forall|i: int, j: int| 0 <= i < j < rest.len() implies
            #[trigger] crate::order::text_before(rest[i].0, rest[j].0) by {
            assert(crate::order::text_before(labels[i].0, labels[j].0));
        }
        grouping_keeps_provenance(rest, group_by, name);
        let kept = kept_labels(rest, group_by);
        if keeps_label(group_by)(labels.last()) {
            assert(kept.push(labels.last()).drop_last() == kept);
        }
    }
}

#[derive(Clone, Debug)]
pub struct DatabaseQueryOptions {
    pub node: Option<String>,
    pub source: Option<String>,
    pub labels: Vec<(String, String)>,
    pub label_contains: Vec<(String, String)>,
    pub sql_shape: bool,
    pub limit: usize,
}

#[derive(Debug)]
pub struct DatabaseQueryOutput {
    pub schema_version: u32,
    pub run_id: String,
    pub view: &'static str,
    pub grouping: &'static str,
    pub total_count: usize,
    pub truncated: bool,
    pub rows: Vec<DatabaseQueryRow>,
    pub warnings: Vec<String>,
}

#[derive(Debug)]
pub struct DatabaseQueryRow {
    pub node: String,
    pub engine: String,
    pub source: String,
    pub digest: String,
    /// The part of the benchmark that the row covers, where it covers one that was told apart.
    pub window: Option<String>,
    /// Tells statements apart whose digest was cut short.
    pub digest_id: Option<String>,
    pub sql_shape: Option<String>,
    pub digest_count: usize,
    pub digest_examples: Vec<String>,
    pub calls: Number,
    pub total_ms: Number,
    pub avg_ms: Option<Number>,
    pub p95_ms: Option<Number>,
    pub lock_ms: Number,
    pub rows_sent: Number,
    pub rows_examined: Number,
    pub rows_examined_per_call: Option<Number>,
    pub unavailable: Labels,
}

/// The mathematical value of a statement row.
#[verifier::ext_equal]
pub struct DatabaseRowView {
    pub node: Seq<char>,
    pub engine: Seq<char>,
    pub source: Seq<char>,
    pub digest: Seq<char>,
    pub window: Option<Seq<char>>,
    pub digest_id: Option<Seq<char>>,
    pub sql_shape: Option<Seq<char>>,
    pub digest_count: nat,
    pub digest_examples: Seq<Seq<char>>,
    pub calls: Number,
    pub total_ms: Number,
    pub avg_ms: Option<Number>,
    pub p95_ms: Option<Number>,
    pub lock_ms: Number,
    pub rows_sent: Number,
    pub rows_examined: Number,
    pub rows_examined_per_call: Option<Number>,
    pub unavailable: Seq<Pair>,
}

impl View for DatabaseQueryRow {
    type V = DatabaseRowView;

    open spec fn view(&self) -> DatabaseRowView {
        DatabaseRowView {
            node: self.node@,
            engine: self.engine@,
            source: self.source@,
            digest: self.digest@,
            window: text_option(self.window),
            digest_id: text_option(self.digest_id),
            sql_shape: text_option(self.sql_shape),
            digest_count: self.digest_count as nat,
            digest_examples: texts(self.digest_examples@),
            calls: self.calls,
            total_ms: self.total_ms,
            avg_ms: self.avg_ms,
            p95_ms: self.p95_ms,
            lock_ms: self.lock_ms,
            rows_sent: self.rows_sent,
            rows_examined: self.rows_examined,
            rows_examined_per_call: self.rows_examined_per_call,
            unavailable: self.unavailable@,
        }
    }
}

pub open spec fn database_row_views(rows: Seq<DatabaseQueryRow>) -> Seq<DatabaseRowView> {
    rows.map_values(|r: DatabaseQueryRow| r@)
}

/// The view of a run over its aggregates selects the metric.
pub open spec fn picks(
    node: Option<String>,
    source: Option<String>,
    labels: Seq<(String, String)>,
    label_contains: Seq<(String, String)>,
) -> spec_fn(Metric) -> bool {
    |m: Metric|
        {
            &&& m.timestamp is None
            &&& label_is(m.labels@, "node"@, node)
            &&& label_is(m.labels@, "collector"@, source)
            &&& has_labels(m.labels@, labels)
            &&& has_texts(m.labels@, label_contains)
        }
}

/// The metrics that `picks` selects.
fn picked(
    metrics: Vec<Metric>,
    node: &Option<String>,
    source: &Option<String>,
    labels: &Vec<(String, String)>,
    label_contains: &Vec<(String, String)>,
) -> (r: Vec<Metric>)
    ensures
        r@ == metrics@.filter(picks(*node, *source, labels@, label_contains@)),
{
    let ghost all = metrics@;
    let ghost p = picks(*node, *source, labels@, label_contains@);
    let mut out: Vec<Metric> = Vec::new();
    proof {
        reveal(Seq::filter);
        assert(all.take(0) == Seq::<Metric>::empty());
    }
    for metric in it: metrics
        invariant
            it.seq() == all,
            p == picks(*node, *source, labels@, label_contains@),
            out@ == all.take(it.index() as int).filter(p),
    {
        proof {
            reveal(Seq::filter);
            let n = it.index() as int;
            assert(all.take(n + 1).drop_last() == all.take(n));
            assert(all.take(n + 1).last() == metric);
        }
        if metric.timestamp.is_none() && label_matches(&metric.labels, "node", node)
            && label_matches(&metric.labels, "collector", source) && labels_match(
            &metric.labels,
            labels,
        ) && labels_contain(&metric.labels, label_contains) {
            out.push(metric);
        }
    }
    assert(all.take(all.len() as int) == all);
    out
}

/// The quotient, where the denominator is not zero.
pub open spec fn quotient_nonzero(
    f: spec_fn(Op) -> Number,
    numerator: Number,
    denominator: Number,
) -> Option<Number> {
    if denominator.is_zero_spec() {
        None
    } else {
        Some(f(Op::Divide(numerator, denominator)))
    }
}

fn divide<F: Fn(Op) -> Number>(numerator: Number, denominator: Number, compute: &F) -> (r: Option<
    Number,
>)
    requires
        is_arithmetic(*compute),
    ensures
        r == quotient_nonzero(arithmetic(*compute), numerator, denominator),
{
    if denominator.is_zero() {
        None
    } else {
        Some(apply(compute, Op::Divide(numerator, denominator)))
    }
}

/// The row of one statement as it stands.
pub open spec fn plain_row() -> spec_fn(QueryView) -> DatabaseRowView {
    |v: QueryView|
        DatabaseRowView {
            node: v.node,
            engine: v.engine,
            source: v.source,
            digest: v.digest,
            window: v.window,
            digest_id: v.digest_id,
            sql_shape: None,
            digest_count: 1,
            digest_examples: seq![example_of(v.digest)],
            calls: v.calls,
            total_ms: v.total_ms,
            avg_ms: v.avg_ms,
            p95_ms: v.p95_ms,
            lock_ms: v.lock_ms,
            rows_sent: v.rows_sent,
            rows_examined: v.rows_examined,
            rows_examined_per_call: v.rows_examined_per_call,
            unavailable: Seq::empty(),
        }
}

pub type ShapeKeyModel = (Seq<char>, (Seq<char>, (Seq<char>, Seq<char>)));

pub type ShapeKey = (String, (String, (String, String)));

pub type StatementKey = (String, Option<String>);

pub open spec fn by_shape() -> spec_fn(QueryView) -> ShapeKeyModel {
    |v: QueryView| (v.node, (v.engine, (v.source, shape_of(v.digest))))
}

pub open spec fn by_digest() -> spec_fn(QueryView) -> Seq<char> {
    |v: QueryView| v.digest
}

/// A statement: its digest, and what tells it apart where the digest was cut short.
pub open spec fn by_statement() -> spec_fn(QueryView) -> (Seq<char>, Option<Seq<char>>) {
    |v: QueryView| (v.digest, v.digest_id)
}

pub open spec fn first_three(digests: Seq<Seq<char>>) -> Seq<Seq<char>> {
    digests.take(if digests.len() <= 3 {
        digests.len() as int
    } else {
        3
    }).map_values(|d: Seq<char>| example_of(d))
}

/// Why the rows of one shape have no quantile: they are of several statements, or of one statement
/// in several windows.
pub open spec fn quantile_reason(statements: nat) -> Seq<char> {
    if statements > 1 {
        "scalar quantiles cannot be merged across digests"@
    } else {
        "scalar quantiles cannot be merged across windows"@
    }
}

/// The row of all statements of one shape, in all windows: counts and times are added up, and
/// quantiles are given up where there is more than one row.
pub open spec fn shape_row(
    f: spec_fn(Op) -> Number,
    k: ShapeKeyModel,
    vs: Seq<QueryView>,
) -> DatabaseRowView {
    let digests = distinct_sorted::<String>(vs.map_values(by_digest()));
    let statements = distinct_sorted::<StatementKey>(vs.map_values(by_statement()));
    let calls = total(f, vs.map_values(|v: QueryView| v.calls));
    let total_ms = total(f, vs.map_values(|v: QueryView| v.total_ms));
    let rows_examined = total(f, vs.map_values(|v: QueryView| v.rows_examined));
    DatabaseRowView {
        node: k.0,
        engine: k.1.0,
        source: k.1.1.0,
        digest: k.1.1.1,
        window: None,
        digest_id: None,
        sql_shape: Some(k.1.1.1),
        digest_count: statements.len(),
        digest_examples: first_three(digests),
        calls,
        total_ms,
        avg_ms: quotient_nonzero(f, total_ms, calls),
        p95_ms: if vs.len() == 1 {
            vs[0].p95_ms
        } else {
            None
        },
        lock_ms: total(f, vs.map_values(|v: QueryView| v.lock_ms)),
        rows_sent: total(f, vs.map_values(|v: QueryView| v.rows_sent)),
        rows_examined,
        rows_examined_per_call: quotient_nonzero(f, rows_examined, calls),
        unavailable: if vs.len() > 1 {
            seq![("p95_ms"@, quantile_reason(statements.len()))]
        } else {
            Seq::empty()
        },
    }
}

/// The rows of all shapes.
pub open spec fn shape_rows(f: spec_fn(Op) -> Number, vs: Seq<QueryView>) -> Seq<DatabaseRowView> {
    distinct_sorted::<ShapeKey>(vs.map_values(by_shape())).map_values(
        |k: ShapeKeyModel| shape_row(f, k, with_key(vs, by_shape(), k)),
    )
}

/// The row as it is shown.
pub open spec fn rounded_row(f: spec_fn(Op) -> Number) -> spec_fn(DatabaseRowView) -> DatabaseRowView {
    |v: DatabaseRowView|
        DatabaseRowView {
            calls: f(Op::Round(v.calls, 0)),
            total_ms: f(Op::Round(v.total_ms, 3)),
            avg_ms: rounded(f, v.avg_ms, 3),
            p95_ms: rounded(f, v.p95_ms, 3),
            lock_ms: f(Op::Round(v.lock_ms, 3)),
            rows_sent: f(Op::Round(v.rows_sent, 0)),
            rows_examined: f(Op::Round(v.rows_examined, 0)),
            rows_examined_per_call: rounded(f, v.rows_examined_per_call, 3),
            ..v
        }
}

/// Rows come by total time, the largest first, then by digest.
pub open spec fn by_row_time() -> spec_fn(DatabaseRowView) -> (int, Seq<char>) {
    |v: DatabaseRowView| (v.total_ms.place(), v.digest)
}

pub type RowTimeKey = (Reverse<Number>, String);

/// All rows of a query over the statements of a run.
pub open spec fn database_rows(
    f: spec_fn(Op) -> Number,
    metrics: Seq<Metric>,
    options: DatabaseQueryOptions,
) -> Seq<DatabaseRowView> {
    let found = queries(
        f,
        metrics.filter(
            picks(options.node, options.source, options.labels@, options.label_contains@),
        ),
    );
    let rows = if options.sql_shape {
        shape_rows(f, found)
    } else {
        found.map_values(plain_row())
    };
    stable_sorted::<DatabaseRowView, RowTimeKey>(rows.map_values(rounded_row(f)), by_row_time())
}

/// No two rows of an answer are of one statement, or one shape, in one window on one node.
pub proof fn database_rows_are_distinct(
    f: spec_fn(Op) -> Number,
    metrics: Seq<Metric>,
    options: DatabaseQueryOptions,
)
    ensures
        database_rows(f, metrics, options).map_values(by_database_row()).no_duplicates(),
{
    let picked = metrics.filter(
        picks(options.node, options.source, options.labels@, options.label_contains@),
    );
    let found = queries(f, picked);
    let rows = if options.sql_shape {
        shape_rows(f, found)
    } else {
        found.map_values(plain_row())
    };
    let shown = rows.map_values(rounded_row(f));
    let names = shown.map_values(by_database_row());
    if options.sql_shape {
        let shape = |r: DatabaseRowView| (r.node, (r.engine, (r.source, r.digest)));
        rows_of_keys_are_distinct::<DatabaseRowView, ShapeKey, RowTimeKey>(
            found.map_values(by_shape()),
            |k: ShapeKeyModel| shape_row(f, k, with_key(found, by_shape(), k)),
            by_row_time(),
            shape,
        );
        let shapes = rows.map_values(shape);
        assert forall|i: int, j: int|
            0 <= i < names.len() && 0 <= j < names.len() && i != j implies names[i]
            != names[j] by {
            assert(shapes[i] != shapes[j]);
        }
    } else {
        queries_are_distinct(f, picked);
        let keys = found.map_values(by_database());
        assert forall|i: int, j: int|
            0 <= i < names.len() && 0 <= j < names.len() && i != j implies names[i]
            != names[j] by {
            assert(keys[i] != keys[j]);
        }
    }
    sorting_keeps_items::<DatabaseRowView, DatabaseRowKeyModel, RowTimeKey>(
        shown,
        by_row_time(),
        by_database_row(),
    );
}

pub open spec fn without_quantile() -> spec_fn(DatabaseRowView) -> bool {
    |r: DatabaseRowView| lookup(r.unavailable, "p95_ms"@) is Some
}

/// The warning about shapes that have no quantile.
pub open spec fn quantile_warning(sql_shape: bool, rows: Seq<DatabaseRowView>) -> Seq<Seq<char>> {
    let n = rows.filter(without_quantile()).len();
    if sql_shape && n > 0 {
        seq![
            "p95_ms is unavailable for "@ + decimal(n)
                + " SQL-shape groups because scalar quantiles cannot be merged"@,
        ]
    } else {
        Seq::empty()
    }
}

fn plain_rows(found: Vec<DatabaseSummary>) -> (r: Vec<DatabaseQueryRow>)
    ensures
        database_row_views(r@) == query_views(found@).map_values(plain_row()),
{
    let ghost all = found@;
    let ghost views = query_views(all);
    let mut out: Vec<DatabaseQueryRow> = Vec::new();
    for summary in it: found
        invariant
            it.seq() == all,
            views == query_views(all),
            database_row_views(out@) == views.take(it.index() as int).map_values(plain_row()),
    {
        let mut examples: Vec<String> = Vec::new();
        examples.push(digest_example(summary.digest.as_str()));
        let ghost v = summary@;
        assert(texts(examples@) == seq![example_of(v.digest)]);
        let row = DatabaseQueryRow {
            node: summary.node,
            engine: summary.engine,
            source: summary.source,
            digest: summary.digest,
            window: summary.window,
            digest_id: summary.digest_id,
            sql_shape: None,
            digest_count: 1,
            digest_examples: examples,
            calls: summary.calls,
            total_ms: summary.total_ms,
            avg_ms: summary.avg_ms,
            p95_ms: summary.p95_ms,
            lock_ms: summary.lock_ms,
            rows_sent: summary.rows_sent,
            rows_examined: summary.rows_examined,
            rows_examined_per_call: summary.rows_examined_per_call,
            unavailable: Labels::new(),
        };
        assert(row@ == plain_row()(v));
        let ghost was = out@;
        out.push(row);
        assert(database_row_views(out@) == database_row_views(was).push(row@));
        assert(views[it.index() as int] == v);
        assert(views.take(it.index() + 1).map_values(plain_row()) == views.take(
            it.index() as int,
        ).map_values(plain_row()).push(plain_row()(v)));
    }
    assert(views.take(all.len() as int) == views);
    out
}

/// Which of its numbers a summary is read for.
#[derive(Clone, Copy)]
enum Field {
    Calls,
    Total,
    Lock,
    Sent,
    Examined,
}

spec fn field_of(field: Field) -> spec_fn(QueryView) -> Number {
    match field {
        Field::Calls => |v: QueryView| v.calls,
        Field::Total => |v: QueryView| v.total_ms,
        Field::Lock => |v: QueryView| v.lock_ms,
        Field::Sent => |v: QueryView| v.rows_sent,
        Field::Examined => |v: QueryView| v.rows_examined,
    }
}

fn field_total<F: Fn(Op) -> Number>(
    members: &Vec<&DatabaseSummary>,
    field: Field,
    compute: &F,
) -> (r: Number)
    requires
        is_arithmetic(*compute),
    ensures
        r == total(
            arithmetic(*compute),
            query_views(derefs(members@)).map_values(field_of(field)),
        ),
{
    let ghost all = query_views(derefs(members@)).map_values(field_of(field));
    let mut values: Vec<Number> = Vec::new();
    let mut i: usize = 0;
    while i < members.len()
        invariant
            i <= members@.len(),
            all == query_views(derefs(members@)).map_values(field_of(field)),
            values@ == all.take(i as int),
        decreases members.len() - i,
    {
        let m = members[i];
        assert(derefs(members@)[i as int] == *m);
        let value = match field {
            Field::Calls => m.calls,
            Field::Total => m.total_ms,
            Field::Lock => m.lock_ms,
            Field::Sent => m.rows_sent,
            Field::Examined => m.rows_examined,
        };
        assert(all[i as int] == value);
        values.push(value);
        assert(all.take(i + 1) == all.take(i as int).push(value));
        i += 1;
    }
    assert(all.take(i as int) == all);
    sum(values.as_slice(), compute)
}

fn copied_text(text: &Option<String>) -> (r: Option<String>)
    ensures
        text_option(r) == text_option(*text),
{
    match text {
        Some(t) => Some(t.clone()),
        None => None,
    }
}

fn shape_row_from<F: Fn(Op) -> Number>(
    members: &Vec<&DatabaseSummary>,
    compute: &F,
    Ghost(k): Ghost<ShapeKeyModel>,
) -> (r: DatabaseQueryRow)
    requires
        is_arithmetic(*compute),
        members@.len() > 0,
        forall|i: int| 0 <= i < members@.len() ==> by_shape()((#[trigger] members@[i])@) == k,
    ensures
        r@ == shape_row(arithmetic(*compute), k, query_views(derefs(members@))),
{
    let ghost f = arithmetic(*compute);
    let ghost vs = query_views(derefs(members@));
    let first = members[0];
    assert(by_shape()(members@[0]@) == k);
    assert(vs[0] == first@);
    let shape = sql_shape(first.digest.as_str());
    let calls = field_total(members, Field::Calls, compute);
    let total_ms = field_total(members, Field::Total, compute);
    let lock_ms = field_total(members, Field::Lock, compute);
    let rows_sent = field_total(members, Field::Sent, compute);
    let rows_examined = field_total(members, Field::Examined, compute);
    proof {
        assert(vs.map_values(field_of(Field::Calls)) == vs.map_values(|v: QueryView| v.calls));
        assert(vs.map_values(field_of(Field::Total)) == vs.map_values(|v: QueryView| v.total_ms));
        assert(vs.map_values(field_of(Field::Lock)) == vs.map_values(|v: QueryView| v.lock_ms));
        assert(vs.map_values(field_of(Field::Sent)) == vs.map_values(|v: QueryView| v.rows_sent));
        assert(vs.map_values(field_of(Field::Examined)) == vs.map_values(
            |v: QueryView| v.rows_examined,
        ));
    }
    let mut names: Vec<String> = Vec::new();
    let mut statements: Vec<StatementKey> = Vec::new();
    let mut i: usize = 0;
    while i < members.len()
        invariant
            i <= members@.len(),
            vs == query_views(derefs(members@)),
            models(names@) == vs.take(i as int).map_values(by_digest()),
            models(statements@) == vs.take(i as int).map_values(by_statement()),
        decreases members.len() - i,
    {
        let ghost was = names@;
        let ghost was_statements = statements@;
        assert(vs[i as int] == members@[i as int]@);
        names.push(members[i].digest.clone());
        statements.push((members[i].digest.clone(), copied_text(&members[i].digest_id)));
        assert(models(names@) == models(was).push(vs[i as int].digest));
        assert(vs.take(i + 1).map_values(by_digest()) == vs.take(i as int).map_values(
            by_digest(),
        ).push(vs[i as int].digest));
        assert(models(statements@) == models(was_statements).push(by_statement()(vs[i as int])));
        assert(vs.take(i + 1).map_values(by_statement()) == vs.take(i as int).map_values(
            by_statement(),
        ).push(by_statement()(vs[i as int])));
        i += 1;
    }
    assert(vs.take(i as int) == vs);
    assert(vs.len() == members@.len());
    let told_apart = crate::order::group_by_key(&statements);
    let count: usize = told_apart.len();
    proof {
        crate::order::grouping_keys::<StatementKey>(models(statements@), told_apart@);
        assert(count == distinct_sorted::<StatementKey>(vs.map_values(by_statement())).len());
    }
    let groups = crate::order::group_by_key(&names);
    let ghost m = models(names@);
    let ghost digests = distinct_sorted::<String>(m);
    proof {
        crate::order::grouping_keys::<String>(m, groups@);
    }
    let mut examples: Vec<String> = Vec::new();
    let ghost shorten = |d: Seq<char>| example_of(d);
    let mut g: usize = 0;
    while g < groups.len() && g < 3
        invariant
            g <= groups@.len(),
            g <= 3,
            m == models(names@),
            crate::order::grouping::<String>(m, groups@),
            crate::order::group_keys(m, groups@) == digests,
            shorten == (|d: Seq<char>| example_of(d)),
            texts(examples@) == digests.take(g as int).map_values(shorten),
        decreases groups.len() - g,
    {
        let at: usize = groups[g][0];
        assert(digests[g as int] == crate::order::group_key(m, groups@[g as int]));
        assert(m[at as int] == names@[at as int]@);
        let ghost was = examples@;
        examples.push(digest_example(names[at].as_str()));
        assert(texts(examples@) == texts(was).push(example_of(digests[g as int])));
        assert(digests.take(g + 1).map_values(shorten) == digests.take(g as int).map_values(
            shorten,
        ).push(example_of(digests[g as int])));
        g += 1;
    }
    assert(texts(examples@) == first_three(digests));
    let mut unavailable = Labels::new();
    if members.len() > 1 {
        let reason = if count > 1 {
            "scalar quantiles cannot be merged across digests"
        } else {
            "scalar quantiles cannot be merged across windows"
        };
        unavailable.insert("p95_ms".to_string(), reason.to_string());
    }
    let r = DatabaseQueryRow {
        node: first.node.clone(),
        engine: first.engine.clone(),
        source: first.source.clone(),
        digest: shape.clone(),
        window: None,
        digest_id: None,
        sql_shape: Some(shape),
        digest_count: count,
        digest_examples: examples,
        calls,
        total_ms,
        avg_ms: divide(total_ms, calls, compute),
        p95_ms: if members.len() == 1 {
            first.p95_ms
        } else {
            None
        },
        lock_ms,
        rows_sent,
        rows_examined,
        rows_examined_per_call: divide(rows_examined, calls, compute),
        unavailable,
    };
    assert(r@ == shape_row(f, k, vs));
    r
}

fn group_database_shapes<F: Fn(Op) -> Number>(found: Vec<DatabaseSummary>, compute: &F) -> (r: Vec<
    DatabaseQueryRow,
>)
    requires
        is_arithmetic(*compute),
    ensures
        database_row_views(r@) == shape_rows(arithmetic(*compute), query_views(found@)),
{
    let ghost f = arithmetic(*compute);
    let ghost vs = query_views(found@);
    let mut flags: Vec<bool> = Vec::new();
    let mut i: usize = 0;
    let ghost every = |s: DatabaseSummary| true;
    while i < found.len()
        invariant
            i <= found@.len(),
            every == (|s: DatabaseSummary| true),
            flags@.len() == i,
            forall|j: int| 0 <= j < i ==> #[trigger] flags@[j] == every(found@[j]),
        decreases found.len() - i,
    {
        flags.push(true);
        i += 1;
    }
    let rows = keep(found.as_slice(), &flags, Ghost(every));
    proof {
        filter_all(found@, every);
    }
    let ghost items = found@;
    assert(derefs(rows@) == items);
    let ghost key = |s: DatabaseSummary| by_shape()(s@);
    let mut keys: Vec<ShapeKey> = Vec::new();
    let mut j: usize = 0;
    while j < rows.len()
        invariant
            j <= rows@.len(),
            items == derefs(rows@),
            key == (|s: DatabaseSummary| by_shape()(s@)),
            models(keys@) == items.take(j as int).map_values(key),
        decreases rows.len() - j,
    {
        let s = rows[j];
        assert(items[j as int] == *s);
        let ghost was = keys@;
        keys.push(
            (
                s.node.clone(),
                (s.engine.clone(), (s.source.clone(), sql_shape(s.digest.as_str()))),
            ),
        );
        assert(models(keys@) == models(was).push(key(items[j as int])));
        assert(items.take(j + 1).map_values(key) == items.take(j as int).map_values(key).push(
            key(items[j as int]),
        ));
        j += 1;
    }
    assert(items.take(j as int) == items);
    let groups = group_rows(&rows, &keys, Ghost(key));
    let ghost names = distinct_sorted::<ShapeKey>(items.map_values(key));
    assert(items.map_values(key) == vs.map_values(by_shape()));
    let ghost each = |k: ShapeKeyModel| shape_row(f, k, with_key(vs, by_shape(), k));
    let mut out: Vec<DatabaseQueryRow> = Vec::new();
    let mut g: usize = 0;
    while g < groups.len()
        invariant
            is_arithmetic(*compute),
            f == arithmetic(*compute),
            vs == query_views(items),
            key == (|s: DatabaseSummary| by_shape()(s@)),
            g <= groups@.len(),
            names == distinct_sorted::<ShapeKey>(items.map_values(key)),
            each == (|k: ShapeKeyModel| shape_row(f, k, with_key(vs, by_shape(), k))),
            groups@.len() == names.len(),
            forall|h: int|
                0 <= h < groups@.len() ==> derefs((#[trigger] groups@[h])@) == with_key(
                    items,
                    key,
                    names[h],
                ) && groups@[h]@.len() > 0,
            database_row_views(out@) == names.take(g as int).map_values(each),
        decreases groups.len() - g,
    {
        let members = &groups[g];
        let ghost k = names[g as int];
        proof {
            let part = derefs(members@);
            assert forall|x: int| 0 <= x < members@.len() implies by_shape()(
                (#[trigger] members@[x])@,
            ) == k by {
                assert(part[x] == *members@[x]);
                with_key_holds(items, key, k, x);
            }
            let view = |s: DatabaseSummary| s@;
            crate::join::with_key_through(items, view, by_shape(), k);
            assert(key =~= (|s: DatabaseSummary| by_shape()(view(s))));
            assert(query_views(part) == with_key(vs, by_shape(), k));
        }
        let row = shape_row_from(members, compute, Ghost(k));
        let ghost was = out@;
        out.push(row);
        proof {
            assert(database_row_views(out@) == database_row_views(was).push(row@));
            assert(names.take(g + 1).map_values(each) == names.take(g as int).map_values(each).push(
                each(k),
            ));
        }
        g += 1;
    }
    assert(names.take(g as int) == names);
    out
}

proof fn filter_all<T>(items: Seq<T>, p: spec_fn(T) -> bool)
    requires
        forall|i: int| 0 <= i < items.len() ==> p(#[trigger] items[i]),
    ensures
        items.filter(p) == items,
    decreases items.len(),
{
    reveal(Seq::filter);
    if items.len() > 0 {
        assert forall|i: int| 0 <= i < items.drop_last().len() implies p(
            #[trigger] items.drop_last()[i],
        ) by {
            assert(p(items[i]));
        }
        filter_all(items.drop_last(), p);
        assert(p(items[items.len() - 1]));
        assert(items == items.drop_last().push(items.last()));
    }
}

fn round_database_query_row<F: Fn(Op) -> Number>(row: &mut DatabaseQueryRow, compute: &F)
    requires
        is_arithmetic(*compute),
    ensures
        final(row)@ == rounded_row(arithmetic(*compute))(old(row)@),
{
    row.calls = apply(compute, Op::Round(row.calls, 0));
    row.total_ms = apply(compute, Op::Round(row.total_ms, 3));
    row.avg_ms = round_option(row.avg_ms, 3, compute);
    row.p95_ms = round_option(row.p95_ms, 3, compute);
    row.lock_ms = apply(compute, Op::Round(row.lock_ms, 3));
    row.rows_sent = apply(compute, Op::Round(row.rows_sent, 0));
    row.rows_examined = apply(compute, Op::Round(row.rows_examined, 0));
    row.rows_examined_per_call = round_option(row.rows_examined_per_call, 3, compute);
}

/// Answers a query over the statements of a run.
pub fn database_query<F: Fn(Op) -> Number>(
    run_id: String,
    metrics: Vec<Metric>,
    options: DatabaseQueryOptions,
    compute: &F,
) -> (r: DatabaseQueryOutput)
    requires
        is_arithmetic(*compute),
    ensures
        ({
            let rows = database_rows(arithmetic(*compute), metrics@, options);
            &&& r.schema_version == 1
            &&& r.run_id == run_id
            &&& r.view@ == "database"@
            &&& r.grouping@ == (if options.sql_shape {
                "sql_shape"@
            } else {
                "digest"@
            })
            &&& r.total_count == rows.len()
            &&& r.truncated == (rows.len() > options.limit)
            &&& shortened(rows, options.limit as int, database_row_views(r.rows@))
            &&& texts(r.warnings@) == quantile_warning(options.sql_shape, rows)
        }),
        database_row_views(r.rows@).map_values(by_database_row()).no_duplicates(),
{
    let ghost f = arithmetic(*compute);
    let ghost given = metrics@;
    let filtered = picked(
        metrics,
        &options.node,
        &options.source,
        &options.labels,
        &options.label_contains,
    );
    let found = database_queries(filtered.as_slice(), compute);
    let ghost vs = query_views(found@);
    let plain = if options.sql_shape {
        group_database_shapes(found, compute)
    } else {
        plain_rows(found)
    };
    let ghost before = database_row_views(plain@);
    let ghost finish = rounded_row(f);
    let ghost view = |r: DatabaseQueryRow| r@;
    let ghost through = |r: DatabaseQueryRow| by_row_time()(view(r));
    let ghost all_plain = plain@;
    let mut rows: Vec<DatabaseQueryRow> = Vec::new();
    let mut ranks: Vec<RowTimeKey> = Vec::new();
    for plain_row in it: plain
        invariant
            is_arithmetic(*compute),
            f == arithmetic(*compute),
            it.seq() == all_plain,
            before == database_row_views(all_plain),
            finish == rounded_row(f),
            view == (|r: DatabaseQueryRow| r@),
            through == (|r: DatabaseQueryRow| by_row_time()(view(r))),
            database_row_views(rows@) == before.take(it.index() as int).map_values(finish),
            models(ranks@) == rows@.map_values(through),
    {
        let mut row = plain_row;
        let ghost n = it.index() as int;
        assert(before[n] == row@);
        round_database_query_row(&mut row, compute);
        let ghost was = rows@;
        let ghost was_ranks = ranks@;
        ranks.push((Reverse { key: row.total_ms }, row.digest.clone()));
        rows.push(row);
        proof {
            assert(database_row_views(rows@) == database_row_views(was).push(row@));
            assert(before.take(n + 1).map_values(finish) == before.take(n).map_values(finish).push(
                finish(before[n]),
            ));
            assert(models(ranks@) == models(was_ranks).push(through(row)));
            assert(rows@.map_values(through) == was.map_values(through).push(through(row)));
        }
    }
    assert(before.take(before.len() as int) == before);
    proof {
        stable_sorted_through::<DatabaseQueryRow, DatabaseRowView, RowTimeKey>(
            rows@,
            view,
            by_row_time(),
        );
    }
    let rows = sort_by_keys(rows, &ranks, Ghost(through));
    let ghost views = database_row_views(rows@);
    let mut without: usize = 0;
    let mut n: usize = 0;
    proof {
        reveal(Seq::filter);
        assert(views.take(0) == Seq::<DatabaseRowView>::empty());
    }
    while n < rows.len()
        invariant
            n <= rows@.len(),
            views == database_row_views(rows@),
            without == views.take(n as int).filter(without_quantile()).len(),
            without <= n,
        decreases rows.len() - n,
    {
        proof {
            reveal(Seq::filter);
            assert(views.take(n + 1).drop_last() == views.take(n as int));
            assert(views.take(n + 1).last() == rows@[n as int]@);
        }
        if rows[n].unavailable.has("p95_ms") {
            without += 1;
        }
        n += 1;
    }
    assert(views.take(n as int) == views);
    let mut warnings: Vec<String> = Vec::new();
    if options.sql_shape && without > 0 {
        let mut text = chars_of("p95_ms is unavailable for ");
        let count = decimal_of(without as u64);
        append(&mut text, count.as_slice());
        append_str(&mut text, " SQL-shape groups because scalar quantiles cannot be merged");
        warnings.push(string_of(text.as_slice()));
    }
    assert(texts(warnings@) == quantile_warning(options.sql_shape, views));
    let total_count: usize = rows.len();
    let ghost all_rows = rows@;
    let shown = cut_rows(rows, options.limit);
    proof {
        let m = if all_rows.len() <= options.limit {
            all_rows.len() as int
        } else {
            options.limit as int
        };
        assert(database_row_views(all_rows.take(m)) == database_row_views(all_rows).take(m));
        database_rows_are_distinct(f, given, options);
        cut_names_are_distinct(database_row_views(all_rows), m, by_database_row());
    }
    DatabaseQueryOutput {
        schema_version: 1,
        run_id,
        view: "database",
        grouping: if options.sql_shape {
            "sql_shape"
        } else {
            "digest"
        },
        total_count,
        truncated: total_count > options.limit,
        rows: shown,
        warnings,
    }
}

/// Quantiles of several rows are never merged into one: a shape that covers several statements or
/// several windows has none, and says so.
pub proof fn shapes_do_not_merge_quantiles(
    f: spec_fn(Op) -> Number,
    k: ShapeKeyModel,
    vs: Seq<QueryView>,
)
    requires
        vs.len() > 1,
    ensures
        shape_row(f, k, vs).p95_ms is None,
        lookup(shape_row(f, k, vs).unavailable, "p95_ms"@) is Some,
{
}

/// A statement summary as it is shown.
pub open spec fn rounded_query(f: spec_fn(Op) -> Number, v: QueryView) -> QueryView {
    QueryView {
        calls: f(Op::Round(v.calls, 0)),
        total_ms: f(Op::Round(v.total_ms, 3)),
        avg_ms: rounded(f, v.avg_ms, 3),
        p95_ms: rounded(f, v.p95_ms, 3),
        lock_ms: f(Op::Round(v.lock_ms, 3)),
        rows_sent: f(Op::Round(v.rows_sent, 0)),
        rows_examined: f(Op::Round(v.rows_examined, 0)),
        rows_examined_per_call: rounded(f, v.rows_examined_per_call, 3),
        ..v
    }
}

pub fn round_database_summary<F: Fn(Op) -> Number>(row: &mut DatabaseSummary, compute: &F)
    requires
        is_arithmetic(*compute),
    ensures
        final(row)@ == rounded_query(arithmetic(*compute), old(row)@),
{
    row.calls = apply(compute, Op::Round(row.calls, 0));
    row.total_ms = apply(compute, Op::Round(row.total_ms, 3));
    row.avg_ms = round_option(row.avg_ms, 3, compute);
    row.p95_ms = round_option(row.p95_ms, 3, compute);
    row.lock_ms = apply(compute, Op::Round(row.lock_ms, 3));
    row.rows_sent = apply(compute, Op::Round(row.rows_sent, 0));
    row.rows_examined = apply(compute, Op::Round(row.rows_examined, 0));
    row.rows_examined_per_call = round_option(row.rows_examined_per_call, 3, compute);
}

pub open spec fn rounded_counts(
    f: spec_fn(Op) -> Number,
    counts: Seq<(Seq<char>, Number)>,
) -> Seq<(Seq<char>, Number)> {
    counts.map_values(|p: (Seq<char>, Number)| (p.0, f(Op::Round(p.1, 0))))
}

/// A route summary as it is shown.
pub open spec fn rounded_route(f: spec_fn(Op) -> Number) -> spec_fn(RouteView) -> RouteView {
    |v: RouteView|
        RouteView {
            count: f(Op::Round(v.count, 0)),
            total_ms: rounded(f, v.total_ms, 3),
            avg_ms: rounded(f, v.avg_ms, 3),
            min_ms: rounded(f, v.min_ms, 3),
            p50_ms: rounded(f, v.p50_ms, 3),
            p95_ms: rounded(f, v.p95_ms, 3),
            p99_ms: rounded(f, v.p99_ms, 3),
            max_ms: rounded(f, v.max_ms, 3),
            errors: f(Op::Round(v.errors, 0)),
            error_rate: rounded(f, v.error_rate, 6),
            response_bytes: rounded(f, v.response_bytes, 0),
            status_counts: rounded_counts(f, v.status_counts),
            ..v
        }
}

fn round_counts<F: Fn(Op) -> Number>(counts: &Counts, compute: &F) -> (r: Counts)
    requires
        is_arithmetic(*compute),
    ensures
        r@ == rounded_counts(arithmetic(*compute), counts@),
{
    let ghost f = arithmetic(*compute);
    let ghost all = rounded_counts(f, counts@);
    let mut out = Counts::new();
    let n: usize = counts.len();
    let mut i: usize = 0;
    while i < n
        invariant
            is_arithmetic(*compute),
            f == arithmetic(*compute),
            n == counts@.len(),
            i <= n,
            crate::labels::ascending(counts@),
            all == rounded_counts(f, counts@),
            out@ == all.take(i as int),
        decreases n - i,
    {
        let value = apply(compute, Op::Round(*counts.value(i), 0));
        let ghost before = out@;
        proof {
            if i > 0 {
                assert(crate::order::text_before(counts@[i - 1].0, counts@[i as int].0));
                crate::order::text_order(counts@[i - 1].0, counts@[i as int].0, counts@[i - 1].0);
                assert(before.last() == all[i - 1]);
            }
        }
        out.insert(counts.key(i).clone(), value);
        assert(out@ == before.push(all[i as int]));
        assert(all.take(i + 1) == all.take(i as int).push(all[i as int]));
        i += 1;
    }
    assert(all.take(i as int) == all);
    out
}

pub fn round_http_summary<F: Fn(Op) -> Number>(row: &mut HttpRouteSummary, compute: &F)
    requires
        is_arithmetic(*compute),
    ensures
        final(row)@ == rounded_route(arithmetic(*compute))(old(row)@),
{
    row.count = apply(compute, Op::Round(row.count, 0));
    row.total_ms = round_option(row.total_ms, 3, compute);
    row.avg_ms = round_option(row.avg_ms, 3, compute);
    row.min_ms = round_option(row.min_ms, 3, compute);
    row.p50_ms = round_option(row.p50_ms, 3, compute);
    row.p95_ms = round_option(row.p95_ms, 3, compute);
    row.p99_ms = round_option(row.p99_ms, 3, compute);
    row.max_ms = round_option(row.max_ms, 3, compute);
    row.errors = apply(compute, Op::Round(row.errors, 0));
    row.error_rate = round_option(row.error_rate, 6, compute);
    row.response_bytes = round_option(row.response_bytes, 0, compute);
    row.status_counts = round_counts(&row.status_counts, compute);
}

#[derive(Clone, Debug)]
pub struct HttpQueryOptions {
    pub node: Option<String>,
    pub source: Option<String>,
    pub labels: Vec<(String, String)>,
    pub label_contains: Vec<(String, String)>,
    pub limit: usize,
}

#[derive(Debug)]
pub struct HttpQueryOutput {
    pub schema_version: u32,
    pub run_id: String,
    pub view: &'static str,
    pub total_count: usize,
    pub truncated: bool,
    pub rows: Vec<HttpRouteSummary>,
    pub warnings: Vec<String>,
}

/// All rows of a query over the routes of a run.
pub open spec fn http_rows(
    f: spec_fn(Op) -> Number,
    metrics: Seq<Metric>,
    options: HttpQueryOptions,
) -> Seq<RouteView> {
    routes(
        f,
        metrics.filter(
            picks(options.node, options.source, options.labels@, options.label_contains@),
        ),
    ).map_values(rounded_route(f))
}

/// No two rows of an answer are of one route of one node.
pub proof fn http_rows_are_distinct(
    f: spec_fn(Op) -> Number,
    metrics: Seq<Metric>,
    options: HttpQueryOptions,
)
    ensures
        http_rows(f, metrics, options).map_values(by_http()).no_duplicates(),
{
    let picked = metrics.filter(
        picks(options.node, options.source, options.labels@, options.label_contains@),
    );
    routes_are_distinct(f, picked);
    assert(http_rows(f, metrics, options).map_values(by_http()) == routes(f, picked).map_values(
        by_http(),
    ));
}

/// Rounds every route.
pub fn round_routes<F: Fn(Op) -> Number>(rows: Vec<HttpRouteSummary>, compute: &F) -> (r: Vec<
    HttpRouteSummary,
>)
    requires
        is_arithmetic(*compute),
    ensures
        route_views(r@) == route_views(rows@).map_values(rounded_route(arithmetic(*compute))),
{
    let ghost f = arithmetic(*compute);
    let ghost all = rows@;
    let ghost views = route_views(all);
    let ghost finish = rounded_route(f);
    let mut out: Vec<HttpRouteSummary> = Vec::new();
    for row in it: rows
        invariant
            is_arithmetic(*compute),
            f == arithmetic(*compute),
            it.seq() == all,
            views == route_views(all),
            finish == rounded_route(f),
            route_views(out@) == views.take(it.index() as int).map_values(finish),
    {
        let mut row = row;
        let ghost n = it.index() as int;
        assert(views[n] == row@);
        round_http_summary(&mut row, compute);
        let ghost was = out@;
        out.push(row);
        assert(route_views(out@) == route_views(was).push(row@));
        assert(views.take(n + 1).map_values(finish) == views.take(n).map_values(finish).push(
            finish(views[n]),
        ));
    }
    assert(views.take(views.len() as int) == views);
    out
}

/// Answers a query over the routes of a run.
pub fn http_query<F: Fn(Op) -> Number>(
    run_id: String,
    metrics: Vec<Metric>,
    options: HttpQueryOptions,
    compute: &F,
) -> (r: HttpQueryOutput)
    requires
        is_arithmetic(*compute),
    ensures
        ({
            let rows = http_rows(arithmetic(*compute), metrics@, options);
            &&& r.schema_version == 1
            &&& r.run_id == run_id
            &&& r.view@ == "http"@
            &&& r.total_count == rows.len()
            &&& r.truncated == (rows.len() > options.limit)
            &&& shortened(rows, options.limit as int, route_views(r.rows@))
            &&& r.warnings@.len() == 0
        }),
        route_views(r.rows@).map_values(by_http()).no_duplicates(),
{
    let ghost given = metrics@;
    let filtered = picked(
        metrics,
        &options.node,
        &options.source,
        &options.labels,
        &options.label_contains,
    );
    let found = http_routes(filtered.as_slice(), compute);
    let rows = round_routes(found, compute);
    let total_count: usize = rows.len();
    let ghost all_rows = rows@;
    let shown = cut_rows(rows, options.limit);
    proof {
        let m = if all_rows.len() <= options.limit {
            all_rows.len() as int
        } else {
            options.limit as int
        };
        assert(route_views(all_rows.take(m)) == route_views(all_rows).take(m));
        http_rows_are_distinct(arithmetic(*compute), given, options);
        cut_names_are_distinct(route_views(all_rows), m, by_http());
    }
    HttpQueryOutput {
        schema_version: 1,
        run_id,
        view: "http",
        total_count,
        truncated: total_count > options.limit,
        rows: shown,
        warnings: Vec::new(),
    }
}

#[derive(Clone, Copy, Debug, PartialEq, Eq, Structural)]
pub enum QueryPresence {
    Both,
    Added,
    Removed,
}

/// A number before and after, with what changed.
#[derive(Clone, Copy, Debug, PartialEq, Eq, Structural)]
pub struct NumericDiff {
    pub base: Option<Number>,
    pub candidate: Option<Number>,
    pub delta: Option<Number>,
    pub delta_percent: Option<Number>,
}

impl View for NumericDiff {
    type V = NumericDiff;

    open spec fn view(&self) -> NumericDiff {
        *self
    }
}

/// The difference, and the difference in percent of a base other than zero, where there are both
/// numbers.
pub open spec fn difference(
    f: spec_fn(Op) -> Number,
    base: Option<Number>,
    candidate: Option<Number>,
) -> NumericDiff {
    let both = base is Some && candidate is Some;
    let change = f(Op::Subtract(candidate->0, base->0));
    NumericDiff {
        base,
        candidate,
        delta: if both {
            Some(f(Op::Round(change, 6)))
        } else {
            None
        },
        delta_percent: if both && !base->0.is_zero_spec() {
            Some(
                f(
                    Op::Round(
                        f(
                            Op::Multiply(
                                f(Op::Divide(change, base->0)),
                                f(Op::Integer(100)),
                            ),
                        ),
                        2,
                    ),
                ),
            )
        } else {
            None
        },
    }
}

fn numeric_diff<F: Fn(Op) -> Number>(
    base: Option<Number>,
    candidate: Option<Number>,
    compute: &F,
) -> (r: NumericDiff)
    requires
        is_arithmetic(*compute),
    ensures
        r == difference(arithmetic(*compute), base, candidate),
{
    match (base, candidate) {
        (Some(b), Some(c)) => {
            let change = apply(compute, Op::Subtract(c, b));
            let delta = Some(apply(compute, Op::Round(change, 6)));
            let delta_percent = if b.is_zero() {
                None
            } else {
                let ratio = apply(compute, Op::Divide(change, b));
                let hundred = apply(compute, Op::Integer(100));
                let percent = apply(compute, Op::Multiply(ratio, hundred));
                Some(apply(compute, Op::Round(percent, 2)))
            };
            NumericDiff { base, candidate, delta, delta_percent }
        },
        _ => NumericDiff { base, candidate, delta: None, delta_percent: None },
    }
}

/// Where a row of a comparison was found.
pub open spec fn presence_of<T>(base: Option<T>, candidate: Option<T>) -> QueryPresence {
    if base is Some && candidate is Some {
        QueryPresence::Both
    } else if candidate is Some {
        QueryPresence::Added
    } else {
        QueryPresence::Removed
    }
}

fn presence<T>(base: &Option<T>, candidate: &Option<T>) -> (r: QueryPresence)
    ensures
        r == presence_of(*base, *candidate),
{
    match (base.is_some(), candidate.is_some()) {
        (true, true) => QueryPresence::Both,
        (false, true) => QueryPresence::Added,
        _ => QueryPresence::Removed,
    }
}

#[derive(Debug)]
pub struct QueryDiffRow<T> {
    pub key: Labels,
    pub presence: QueryPresence,
    pub base: Option<T>,
    pub candidate: Option<T>,
    pub changes: TextMap<NumericDiff>,
}

#[derive(Debug)]
pub struct QueryDiffOutput<T> {
    pub schema_version: u32,
    pub view: &'static str,
    pub base_run_id: String,
    pub candidate_run_id: String,
    pub window: Option<String>,
    pub grouping: Option<&'static str>,
    pub total_count: usize,
    pub truncated: bool,
    pub rows: Vec<QueryDiffRow<T>>,
    pub warnings: Vec<String>,
}

/// The changes of a comparison, by the name of what changed.
pub type Changes = Seq<(Seq<char>, NumericDiff)>;

/// The mathematical value of a row of a comparison.
#[verifier::ext_equal]
pub struct DiffRowView<U> {
    pub key: Seq<Pair>,
    pub presence: QueryPresence,
    pub base: Option<U>,
    pub candidate: Option<U>,
    pub changes: Changes,
}

pub open spec fn viewed<T: View>(value: Option<T>) -> Option<T::V> {
    match value {
        Some(v) => Some(v@),
        None => None,
    }
}

impl<T: View> View for QueryDiffRow<T> {
    type V = DiffRowView<T::V>;

    open spec fn view(&self) -> DiffRowView<T::V> {
        DiffRowView {
            key: self.key@,
            presence: self.presence,
            base: viewed(self.base),
            candidate: viewed(self.candidate),
            changes: self.changes@,
        }
    }
}

pub open spec fn diff_row_views<T: View>(rows: Seq<QueryDiffRow<T>>) -> Seq<DiffRowView<T::V>> {
    rows.map_values(|r: QueryDiffRow<T>| r@)
}

/// How far a row changed in the number named `preferred`; where it has no change, how large that
/// number is.
pub open spec fn magnitude_of(changes: Changes, preferred: Seq<char>) -> Number {
    match lookup(changes, preferred) {
        None => Number::zero_spec(),
        Some(change) => {
            let number = if change.delta is Some {
                change.delta
            } else if change.candidate is Some {
                change.candidate
            } else {
                change.base
            };
            match number {
                Some(n) => n.abs_spec(),
                None => Number::zero_spec(),
            }
        },
    }
}

/// Rows come by how far they changed, the farthest first, then by key.
pub open spec fn by_change<U>(preferred: Seq<char>) -> spec_fn(DiffRowView<U>) -> (
    int,
    Seq<Pair>,
) {
    |r: DiffRowView<U>| (magnitude_of(r.changes, preferred).place(), r.key)
}

pub type ChangeKey = (Reverse<Number>, Labels);

/// The row of a comparison for what each side has of one key.
pub open spec fn diff_row<U>(
    key_of: spec_fn(U) -> Seq<Pair>,
    changes_of: spec_fn(Option<U>, Option<U>) -> Changes,
) -> spec_fn((Option<U>, Option<U>)) -> DiffRowView<U> {
    |p: (Option<U>, Option<U>)|
        DiffRowView {
            key: key_of(
                if p.0 is Some {
                    p.0->0
                } else {
                    p.1->0
                },
            ),
            presence: presence_of(p.0, p.1),
            base: p.0,
            candidate: p.1,
            changes: changes_of(p.0, p.1),
        }
}

/// All rows of a comparison: both sides are joined in full before anything is cut.
pub open spec fn diff_rows<U, K: Key>(
    base: Seq<U>,
    candidate: Seq<U>,
    key: spec_fn(U) -> K::Model,
    key_of: spec_fn(U) -> Seq<Pair>,
    changes_of: spec_fn(Option<U>, Option<U>) -> Changes,
    preferred: Seq<char>,
) -> Seq<DiffRowView<U>> {
    stable_sorted::<DiffRowView<U>, ChangeKey>(
        pairs_of::<U, K>(base, candidate, key).map_values(diff_row(key_of, changes_of)),
        by_change(preferred),
    )
}

/// A comparison keeps every row of both answers: each stands on its side of a row, beside the row
/// of the other answer that has its key. The answers to the queries have no two rows of one key.
pub proof fn comparisons_show_every_row<U, K: Key>(
    base: Seq<U>,
    candidate: Seq<U>,
    key: spec_fn(U) -> K::Model,
    key_of: spec_fn(U) -> Seq<Pair>,
    changes_of: spec_fn(Option<U>, Option<U>) -> Changes,
    preferred: Seq<char>,
)
    requires
        base.map_values(key).no_duplicates(),
        candidate.map_values(key).no_duplicates(),
    ensures
        ({
            let rows = diff_rows::<U, K>(base, candidate, key, key_of, changes_of, preferred);
            &&& forall|i: int|
                #![trigger base[i]]
                0 <= i < base.len() ==> exists|r: int|
                    0 <= r < rows.len() && (#[trigger] rows[r]).base == Some(base[i])
            &&& forall|i: int|
                #![trigger candidate[i]]
                0 <= i < candidate.len() ==> exists|r: int|
                    0 <= r < rows.len() && (#[trigger] rows[r]).candidate == Some(candidate[i])
        }),
{
    let rows = diff_rows::<U, K>(base, candidate, key, key_of, changes_of, preferred);
    let pairs = pairs_of::<U, K>(base, candidate, key);
    let plain = pairs.map_values(diff_row(key_of, changes_of));
    comparisons_keep_every_row::<U, K>(base, candidate, key);
    sorting_keeps_items::<DiffRowView<U>, DiffRowView<U>, ChangeKey>(
        plain,
        by_change(preferred),
        |r: DiffRowView<U>| r,
    );
    assert forall|i: int| #![trigger base[i]] 0 <= i < base.len() implies exists|r: int|
        0 <= r < rows.len() && (#[trigger] rows[r]).base == Some(base[i]) by {
        let p = choose|p: int| 0 <= p < pairs.len() && (#[trigger] pairs[p]).0 == Some(base[i]);
        assert(plain.contains(plain[p]));
        assert(rows.contains(plain[p]));
        let r = choose|r: int| 0 <= r < rows.len() && rows[r] == plain[p];
        assert(rows[r].base == Some(base[i]));
    }
    assert forall|i: int| #![trigger candidate[i]] 0 <= i < candidate.len() implies exists|r: int|
        0 <= r < rows.len() && (#[trigger] rows[r]).candidate == Some(candidate[i]) by {
        let p = choose|p: int|
            0 <= p < pairs.len() && (#[trigger] pairs[p]).1 == Some(candidate[i]);
        assert(plain.contains(plain[p]));
        assert(rows.contains(plain[p]));
        let r = choose|r: int| 0 <= r < rows.len() && rows[r] == plain[p];
        assert(rows[r].candidate == Some(candidate[i]));
    }
}

fn diff_magnitude(changes: &TextMap<NumericDiff>, preferred: &str) -> (r: Number)
    ensures
        r == magnitude_of(changes@, preferred@),
{
    match changes.get(preferred) {
        None => Number::zero(),
        Some(change) => {
            let number = if change.delta.is_some() {
                change.delta
            } else if change.candidate.is_some() {
                change.candidate
            } else {
                change.base
            };
            match number {
                Some(n) => n.abs(),
                None => Number::zero(),
            }
        },
    }
}

/// Sorts the rows of a comparison.
fn sort_diff_rows<T: View>(rows: Vec<QueryDiffRow<T>>, preferred: &str) -> (r: Vec<
    QueryDiffRow<T>,
>)
    ensures
        diff_row_views(r@) == stable_sorted::<DiffRowView<T::V>, ChangeKey>(
            diff_row_views(rows@),
            by_change(preferred@),
        ),
{
    let ghost view = |r: QueryDiffRow<T>| r@;
    let ghost key = by_change::<T::V>(preferred@);
    let ghost through = |r: QueryDiffRow<T>| key(view(r));
    let mut ranks: Vec<ChangeKey> = Vec::new();
    let mut i: usize = 0;
    while i < rows.len()
        invariant
            i <= rows@.len(),
            view == (|r: QueryDiffRow<T>| r@),
            key == by_change::<T::V>(preferred@),
            through == (|r: QueryDiffRow<T>| key(view(r))),
            models(ranks@) == rows@.take(i as int).map_values(through),
        decreases rows.len() - i,
    {
        let ghost was = ranks@;
        ranks.push(
            (Reverse { key: diff_magnitude(&rows[i].changes, preferred) }, rows[i].key.clone()),
        );
        assert(models(ranks@) == models(was).push(through(rows@[i as int])));
        assert(rows@.take(i + 1).map_values(through) == rows@.take(i as int).map_values(
            through,
        ).push(through(rows@[i as int])));
        i += 1;
    }
    assert(rows@.take(i as int) == rows@);
    proof {
        stable_sorted_through::<QueryDiffRow<T>, DiffRowView<T::V>, ChangeKey>(rows@, view, key);
    }
    sort_by_keys(rows, &ranks, Ghost(through))
}

/// `r` shows `rows`, cut to `limit`.
pub open spec fn shows_rows<T: View>(
    r: QueryDiffOutput<T>,
    rows: Seq<DiffRowView<T::V>>,
    limit: usize,
) -> bool {
    &&& r.total_count == rows.len()
    &&& r.truncated == (rows.len() > limit)
    &&& shortened(rows, limit as int, diff_row_views(r.rows@))
}

fn finish_diff<T: View>(
    view: &'static str,
    base_run_id: String,
    candidate_run_id: String,
    window: Option<String>,
    grouping: Option<&'static str>,
    rows: Vec<QueryDiffRow<T>>,
    limit: usize,
    warnings: Vec<String>,
) -> (r: QueryDiffOutput<T>)
    ensures
        r.schema_version == 1,
        r.view == view,
        r.base_run_id == base_run_id,
        r.candidate_run_id == candidate_run_id,
        r.window == window,
        r.grouping == grouping,
        shows_rows(r, diff_row_views(rows@), limit),
        r.warnings == warnings,
{
    let total_count: usize = rows.len();
    let ghost all_rows = rows@;
    let shown = cut_rows(rows, limit);
    proof {
        let m = if all_rows.len() <= limit {
            all_rows.len() as int
        } else {
            limit as int
        };
        assert(diff_row_views(all_rows.take(m)) == diff_row_views(all_rows).take(m));
    }
    QueryDiffOutput {
        schema_version: 1,
        view,
        base_run_id,
        candidate_run_id,
        window,
        grouping,
        total_count,
        truncated: total_count > shown.len(),
        rows: shown,
        warnings,
    }
}

/// A warning with the runs that gave it.
pub open spec fn attributed(
    base: Seq<Seq<char>>,
    candidate: Seq<Seq<char>>,
) -> spec_fn(Seq<char>) -> Seq<char> {
    |w: Seq<char>|
        if base.contains(w) && candidate.contains(w) {
            "base/candidate: "@ + w
        } else if base.contains(w) {
            "base: "@ + w
        } else {
            "candidate: "@ + w
        }
}

/// The warnings of both runs, each once, in their order.
pub open spec fn all_warnings(base: Seq<Seq<char>>, candidate: Seq<Seq<char>>) -> Seq<Seq<char>> {
    distinct_sorted::<String>(base + candidate).map_values(attributed(base, candidate))
}

fn combined_warnings(base: Vec<String>, candidate: Vec<String>) -> (r: Vec<String>)
    ensures
        texts(r@) == all_warnings(texts(base@), texts(candidate@)),
{
    let ghost b = texts(base@);
    let ghost c = texts(candidate@);
    let mut all: Vec<String> = Vec::new();
    let mut i: usize = 0;
    while i < base.len()
        invariant
            i <= base@.len(),
            b == texts(base@),
            texts(all@) == b.take(i as int),
        decreases base.len() - i,
    {
        let ghost was = all@;
        all.push(base[i].clone());
        assert(texts(all@) == texts(was).push(b[i as int]));
        assert(b.take(i + 1) == b.take(i as int).push(b[i as int]));
        i += 1;
    }
    assert(b.take(i as int) == b);
    let mut j: usize = 0;
    assert(b + c.take(0) == b);
    while j < candidate.len()
        invariant
            j <= candidate@.len(),
            c == texts(candidate@),
            texts(all@) == b + c.take(j as int),
        decreases candidate.len() - j,
    {
        let ghost was = all@;
        all.push(candidate[j].clone());
        assert(texts(all@) == texts(was).push(c[j as int]));
        assert(b + c.take(j + 1) == (b + c.take(j as int)).push(c[j as int]));
        j += 1;
    }
    assert(c.take(j as int) == c);
    let ghost m = models(all@);
    assert(m == b + c);
    let groups = crate::order::group_by_key(&all);
    proof {
        crate::order::grouping_keys::<String>(m, groups@);
    }
    let ghost names = distinct_sorted::<String>(m);
    let ghost each = attributed(b, c);
    let mut out: Vec<String> = Vec::new();
    let mut g: usize = 0;
    while g < groups.len()
        invariant
            g <= groups@.len(),
            b == texts(base@),
            c == texts(candidate@),
            m == models(all@),
            crate::order::grouping::<String>(m, groups@),
            crate::order::group_keys(m, groups@) == names,
            each == attributed(b, c),
            texts(out@) == names.take(g as int).map_values(each),
        decreases groups.len() - g,
    {
        let at: usize = groups[g][0];
        assert(names[g as int] == crate::order::group_key(m, groups@[g as int]));
        assert(m[at as int] == all@[at as int]@);
        let warning = &all[at];
        let of_base = listed(&base, warning.as_str());
        let of_candidate = listed(&candidate, warning.as_str());
        let mut text = if of_base && of_candidate {
            chars_of("base/candidate: ")
        } else if of_base {
            chars_of("base: ")
        } else {
            chars_of("candidate: ")
        };
        append_str(&mut text, warning.as_str());
        let ghost was = out@;
        out.push(string_of(text.as_slice()));
        assert(texts(out@) == texts(was).push(each(names[g as int])));
        assert(names.take(g + 1).map_values(each) == names.take(g as int).map_values(each).push(
            each(names[g as int]),
        ));
        g += 1;
    }
    assert(names.take(g as int) == names);
    out
}

/// Every warning of a comparison says which run gave it, and none of either run is dropped.
pub proof fn no_warning_is_dropped(
    base: Seq<Seq<char>>,
    candidate: Seq<Seq<char>>,
    warning: Seq<char>,
)
    requires
        base.contains(warning) || candidate.contains(warning),
    ensures
        all_warnings(base, candidate).contains(attributed(base, candidate)(warning)),
{
    let both = base + candidate;
    let names = distinct_sorted::<String>(both);
    distinct_sorted_holds::<String>(both);
    if base.contains(warning) {
        let i = choose|i: int| 0 <= i < base.len() && base[i] == warning;
        assert(both[i] == warning);
    } else {
        let i = choose|i: int| 0 <= i < candidate.len() && candidate[i] == warning;
        assert(both[base.len() + i] == warning);
    }
    assert(both.contains(warning));
    assert(names.contains(warning));
    let i = choose|i: int| 0 <= i < names.len() && names[i] == warning;
    assert(all_warnings(base, candidate)[i] == attributed(base, candidate)(warning));
}

/// Reads a number of a row, where there is a row.
pub open spec fn read<U>(row: Option<U>, number: spec_fn(U) -> Option<Number>) -> Option<Number> {
    match row {
        Some(u) => number(u),
        None => None,
    }
}

pub open spec fn by_metric_row() -> spec_fn(MetricRowView) -> RowKeyModel {
    |r: MetricRowView| (r.metric, (r.unit, r.labels))
}

/// A metric row is named by its labels, its metric and its unit.
pub open spec fn metric_row_name() -> spec_fn(MetricRowView) -> Seq<Pair> {
    |r: MetricRowView| with_label(with_label(r.labels, "metric"@, r.metric), "unit"@, r.unit)
}

pub open spec fn metric_changes(f: spec_fn(Op) -> Number) -> spec_fn(
    Option<MetricRowView>,
    Option<MetricRowView>,
) -> Changes {
    |b: Option<MetricRowView>, c: Option<MetricRowView>|
        {
            let value = |r: MetricRowView| r.value;
            seq![("value"@, difference(f, read(b, value), read(c, value)))]
        }
}

/// Compares the answers to one metric query over two runs.
pub fn metric_query_diff<F: Fn(Op) -> Number>(
    base: MetricQueryOutput,
    candidate: MetricQueryOutput,
    limit: usize,
    compute: &F,
) -> (r: QueryDiffOutput<MetricQueryRow>)
    requires
        is_arithmetic(*compute),
        base.rows@.len() + candidate.rows@.len() <= usize::MAX,
    ensures
        r.schema_version == 1,
        r.view@ == "metrics"@,
        r.base_run_id == base.run_id,
        r.candidate_run_id == candidate.run_id,
        r.window == candidate.selection.window,
        r.grouping is None,
        shows_rows(
            r,
            diff_rows::<MetricRowView, RowKey>(
                metric_row_views(base.rows@),
                metric_row_views(candidate.rows@),
                by_metric_row(),
                metric_row_name(),
                metric_changes(arithmetic(*compute)),
                "value"@,
            ),
            limit,
        ),
        texts(r.warnings@) == all_warnings(texts(base.warnings@), texts(candidate.warnings@)),
{
    let ghost f = arithmetic(*compute);
    let ghost view = |r: MetricQueryRow| r@;
    let ghost key = |r: MetricQueryRow| by_metric_row()(view(r));
    let base_rows = base.rows;
    let candidate_rows = candidate.rows;
    let ghost bs = metric_row_views(base_rows@);
    let ghost cs = metric_row_views(candidate_rows@);
    let base_keys = metric_row_keys(&base_rows);
    let candidate_keys = metric_row_keys(&candidate_rows);
    let ghost left = base_rows@;
    let ghost right = candidate_rows@;
    let pairs = pair_up(base_rows, base_keys, candidate_rows, candidate_keys, Ghost(key));
    proof {
        crate::join::pairs_through::<MetricQueryRow, MetricRowView, RowKey>(
            left,
            right,
            view,
            by_metric_row(),
        );
        crate::join::joins_lose_no_key::<MetricQueryRow, RowKey>(left, right, key);
    }
    let ghost all = pairs@;
    let ghost pair_views = all.map_values(crate::join::both_views(view));
    let ghost finish = diff_row(metric_row_name(), metric_changes(f));
    let mut rows: Vec<QueryDiffRow<MetricQueryRow>> = Vec::new();
    for pair in it: pairs
        invariant
            is_arithmetic(*compute),
            f == arithmetic(*compute),
            it.seq() == all,
            view == (|r: MetricQueryRow| r@),
            pair_views == all.map_values(crate::join::both_views(view)),
            finish == diff_row(metric_row_name(), metric_changes(f)),
            forall|i: int|
                0 <= i < all.len() ==> (#[trigger] all[i]).0 is Some || all[i].1 is Some,
            diff_row_views(rows@) == pair_views.take(it.index() as int).map_values(finish),
    {
        let ghost n = it.index() as int;
        assert(all[n] == pair);
        let (one, two) = pair;
        let mut name = Labels::new();
        let value_before = match &one {
            Some(row) => row.value,
            None => None,
        };
        let value_after = match &two {
            Some(row) => row.value,
            None => None,
        };
        match (&one, &two) {
            (Some(row), _) => {
                name = named_row(row);
            },
            (None, Some(row)) => {
                name = named_row(row);
            },
            _ => {},
        }
        let mut changes: TextMap<NumericDiff> = TextMap::new();
        changes.insert("value".to_string(), numeric_diff(value_before, value_after, compute));
        let row = QueryDiffRow {
            key: name,
            presence: presence(&one, &two),
            base: one,
            candidate: two,
            changes,
        };
        proof {
            assert(pair_views[n] == (viewed(one), viewed(two)));
            assert(row@ == finish(pair_views[n]));
        }
        let ghost was = rows@;
        rows.push(row);
        assert(diff_row_views(rows@) == diff_row_views(was).push(row@));
        assert(pair_views.take(n + 1).map_values(finish) == pair_views.take(n).map_values(
            finish,
        ).push(finish(pair_views[n])));
    }
    assert(pair_views.take(pair_views.len() as int) == pair_views);
    let rows = sort_diff_rows(rows, "value");
    finish_diff(
        "metrics",
        base.run_id,
        candidate.run_id,
        candidate.selection.window,
        None,
        rows,
        limit,
        combined_warnings(base.warnings, candidate.warnings),
    )
}

fn named_row(row: &MetricQueryRow) -> (r: Labels)
    ensures
        r@ == metric_row_name()(row@),
{
    let mut name = row.labels.clone();
    name.insert("metric".to_string(), row.metric.clone());
    name.insert("unit".to_string(), row.unit.clone());
    name
}

fn metric_row_keys(rows: &Vec<MetricQueryRow>) -> (keys: Vec<RowKey>)
    ensures
        models(keys@) == rows@.map_values(
            |r: MetricQueryRow| by_metric_row()((|r: MetricQueryRow| r@)(r)),
        ),
{
    let ghost key = |r: MetricQueryRow| by_metric_row()((|r: MetricQueryRow| r@)(r));
    let mut keys: Vec<RowKey> = Vec::new();
    let mut i: usize = 0;
    while i < rows.len()
        invariant
            i <= rows@.len(),
            key == (|r: MetricQueryRow| by_metric_row()((|r: MetricQueryRow| r@)(r))),
            models(keys@) == rows@.take(i as int).map_values(key),
        decreases rows.len() - i,
    {
        let row = &rows[i];
        let ghost was = keys@;
        keys.push((row.metric.clone(), (row.unit.clone(), row.labels.clone())));
        assert(models(keys@) == models(was).push(key(rows@[i as int])));
        assert(rows@.take(i + 1).map_values(key) == rows@.take(i as int).map_values(key).push(
            key(rows@[i as int]),
        ));
        i += 1;
    }
    assert(rows@.take(i as int) == rows@);
    keys
}

fn note<F: Fn(Op) -> Number>(
    changes: &mut TextMap<NumericDiff>,
    name: &str,
    base: Option<Number>,
    candidate: Option<Number>,
    compute: &F,
)
    requires
        is_arithmetic(*compute),
    ensures
        final(changes)@ == with_label(
            old(changes)@,
            name@,
            difference(arithmetic(*compute), base, candidate),
        ),
{
    changes.insert(name.to_string(), numeric_diff(base, candidate, compute));
}

/// The changes with the difference in one more number of the two rows.
pub open spec fn noted<U>(
    f: spec_fn(Op) -> Number,
    changes: Changes,
    name: Seq<char>,
    base: Option<U>,
    candidate: Option<U>,
    number: spec_fn(U) -> Option<Number>,
) -> Changes {
    with_label(changes, name, difference(f, read(base, number), read(candidate, number)))
}

/// The changes in the numbers of a database row.
pub open spec fn database_changes(f: spec_fn(Op) -> Number) -> spec_fn(Option<DatabaseRowView>, Option<DatabaseRowView>) -> Changes {
    |b: Option<DatabaseRowView>, c: Option<DatabaseRowView>|
        {
            let none: Changes = Seq::empty();
            let with_calls = noted(f, none, "calls"@, b, c, |v: DatabaseRowView| Some(v.calls));
            let with_total_ms = noted(f, with_calls, "total_ms"@, b, c, |v: DatabaseRowView| Some(v.total_ms));
            let with_avg_ms = noted(f, with_total_ms, "avg_ms"@, b, c, |v: DatabaseRowView| v.avg_ms);
            let with_p95_ms = noted(f, with_avg_ms, "p95_ms"@, b, c, |v: DatabaseRowView| v.p95_ms);
            let with_lock_ms = noted(f, with_p95_ms, "lock_ms"@, b, c, |v: DatabaseRowView| Some(v.lock_ms));
            let with_rows_sent = noted(f, with_lock_ms, "rows_sent"@, b, c, |v: DatabaseRowView| Some(v.rows_sent));
            let with_rows_examined = noted(f, with_rows_sent, "rows_examined"@, b, c, |v: DatabaseRowView| Some(v.rows_examined));
            let with_rows_examined_per_call = noted(f, with_rows_examined, "rows_examined_per_call"@, b, c, |v: DatabaseRowView| v.rows_examined_per_call);
            with_rows_examined_per_call
        }
}

fn database_change_list<F: Fn(Op) -> Number>(
    base: &Option<DatabaseQueryRow>,
    candidate: &Option<DatabaseQueryRow>,
    compute: &F,
) -> (r: TextMap<NumericDiff>)
    requires
        is_arithmetic(*compute),
    ensures
        r@ == database_changes(arithmetic(*compute))(viewed(*base), viewed(*candidate)),
{
    let mut changes: TextMap<NumericDiff> = TextMap::new();
    let before = match base {
        Some(row) => Some(row.calls),
        None => None,
    };
    let after = match candidate {
        Some(row) => Some(row.calls),
        None => None,
    };
    note(&mut changes, "calls", before, after, compute);
    let before = match base {
        Some(row) => Some(row.total_ms),
        None => None,
    };
    let after = match candidate {
        Some(row) => Some(row.total_ms),
        None => None,
    };
    note(&mut changes, "total_ms", before, after, compute);
    let before = match base {
        Some(row) => row.avg_ms,
        None => None,
    };
    let after = match candidate {
        Some(row) => row.avg_ms,
        None => None,
    };
    note(&mut changes, "avg_ms", before, after, compute);
    let before = match base {
        Some(row) => row.p95_ms,
        None => None,
    };
    let after = match candidate {
        Some(row) => row.p95_ms,
        None => None,
    };
    note(&mut changes, "p95_ms", before, after, compute);
    let before = match base {
        Some(row) => Some(row.lock_ms),
        None => None,
    };
    let after = match candidate {
        Some(row) => Some(row.lock_ms),
        None => None,
    };
    note(&mut changes, "lock_ms", before, after, compute);
    let before = match base {
        Some(row) => Some(row.rows_sent),
        None => None,
    };
    let after = match candidate {
        Some(row) => Some(row.rows_sent),
        None => None,
    };
    note(&mut changes, "rows_sent", before, after, compute);
    let before = match base {
        Some(row) => Some(row.rows_examined),
        None => None,
    };
    let after = match candidate {
        Some(row) => Some(row.rows_examined),
        None => None,
    };
    note(&mut changes, "rows_examined", before, after, compute);
    let before = match base {
        Some(row) => row.rows_examined_per_call,
        None => None,
    };
    let after = match candidate {
        Some(row) => row.rows_examined_per_call,
        None => None,
    };
    note(&mut changes, "rows_examined_per_call", before, after, compute);
    changes
}

/// The changes in the numbers of a http row.
pub open spec fn http_changes(f: spec_fn(Op) -> Number) -> spec_fn(Option<RouteView>, Option<RouteView>) -> Changes {
    |b: Option<RouteView>, c: Option<RouteView>|
        {
            let none: Changes = Seq::empty();
            let with_count = noted(f, none, "count"@, b, c, |v: RouteView| Some(v.count));
            let with_total_ms = noted(f, with_count, "total_ms"@, b, c, |v: RouteView| v.total_ms);
            let with_avg_ms = noted(f, with_total_ms, "avg_ms"@, b, c, |v: RouteView| v.avg_ms);
            let with_p50_ms = noted(f, with_avg_ms, "p50_ms"@, b, c, |v: RouteView| v.p50_ms);
            let with_p95_ms = noted(f, with_p50_ms, "p95_ms"@, b, c, |v: RouteView| v.p95_ms);
            let with_p99_ms = noted(f, with_p95_ms, "p99_ms"@, b, c, |v: RouteView| v.p99_ms);
            let with_errors = noted(f, with_p99_ms, "errors"@, b, c, |v: RouteView| Some(v.errors));
            let with_error_rate = noted(f, with_errors, "error_rate"@, b, c, |v: RouteView| v.error_rate);
            with_error_rate
        }
}

fn http_change_list<F: Fn(Op) -> Number>(
    base: &Option<HttpRouteSummary>,
    candidate: &Option<HttpRouteSummary>,
    compute: &F,
) -> (r: TextMap<NumericDiff>)
    requires
        is_arithmetic(*compute),
    ensures
        r@ == http_changes(arithmetic(*compute))(viewed(*base), viewed(*candidate)),
{
    let mut changes: TextMap<NumericDiff> = TextMap::new();
    let before = match base {
        Some(row) => Some(row.count),
        None => None,
    };
    let after = match candidate {
        Some(row) => Some(row.count),
        None => None,
    };
    note(&mut changes, "count", before, after, compute);
    let before = match base {
        Some(row) => row.total_ms,
        None => None,
    };
    let after = match candidate {
        Some(row) => row.total_ms,
        None => None,
    };
    note(&mut changes, "total_ms", before, after, compute);
    let before = match base {
        Some(row) => row.avg_ms,
        None => None,
    };
    let after = match candidate {
        Some(row) => row.avg_ms,
        None => None,
    };
    note(&mut changes, "avg_ms", before, after, compute);
    let before = match base {
        Some(row) => row.p50_ms,
        None => None,
    };
    let after = match candidate {
        Some(row) => row.p50_ms,
        None => None,
    };
    note(&mut changes, "p50_ms", before, after, compute);
    let before = match base {
        Some(row) => row.p95_ms,
        None => None,
    };
    let after = match candidate {
        Some(row) => row.p95_ms,
        None => None,
    };
    note(&mut changes, "p95_ms", before, after, compute);
    let before = match base {
        Some(row) => row.p99_ms,
        None => None,
    };
    let after = match candidate {
        Some(row) => row.p99_ms,
        None => None,
    };
    note(&mut changes, "p99_ms", before, after, compute);
    let before = match base {
        Some(row) => Some(row.errors),
        None => None,
    };
    let after = match candidate {
        Some(row) => Some(row.errors),
        None => None,
    };
    note(&mut changes, "errors", before, after, compute);
    let before = match base {
        Some(row) => row.error_rate,
        None => None,
    };
    let after = match candidate {
        Some(row) => row.error_rate,
        None => None,
    };
    note(&mut changes, "error_rate", before, after, compute);
    changes
}

pub type DatabaseRowKeyModel = (
    Seq<char>,
    (Seq<char>, (Seq<char>, (Seq<char>, (Option<Seq<char>>, Option<Seq<char>>)))),
);

pub type DatabaseRowKey = (
    String,
    (String, (String, (String, (Option<String>, Option<String>)))),
);

pub open spec fn by_database_row() -> spec_fn(DatabaseRowView) -> DatabaseRowKeyModel {
    |r: DatabaseRowView|
        (r.node, (r.engine, (r.source, (r.digest, (r.window, r.digest_id)))))
}

pub open spec fn with_text(pairs: Seq<Pair>, name: Seq<char>, value: Option<Seq<char>>) -> Seq<Pair> {
    match value {
        Some(v) => with_label(pairs, name, v),
        None => pairs,
    }
}

/// A statement row is named by its node, its engine, its collector, what it is grouped by, and by
/// its window and the mark of its statement where it has them.
pub open spec fn database_row_name(grouping: Seq<char>) -> spec_fn(DatabaseRowView) -> Seq<Pair> {
    |r: DatabaseRowView|
        {
            let none: Seq<Pair> = Seq::empty();
            let a = with_label(none, "node"@, r.node);
            let b = with_label(a, "engine"@, r.engine);
            let c = with_label(b, "source"@, r.source);
            let d = with_label(c, grouping, r.digest);
            let e = with_text(d, "window"@, r.window);
            with_text(e, "digest_id"@, r.digest_id)
        }
}

fn database_row_keys(rows: &Vec<DatabaseQueryRow>) -> (keys: Vec<DatabaseRowKey>)
    ensures
        models(keys@) == rows@.map_values(
            |r: DatabaseQueryRow| by_database_row()((|r: DatabaseQueryRow| r@)(r)),
        ),
{
    let ghost key = |r: DatabaseQueryRow| by_database_row()((|r: DatabaseQueryRow| r@)(r));
    let mut keys: Vec<DatabaseRowKey> = Vec::new();
    let mut i: usize = 0;
    while i < rows.len()
        invariant
            i <= rows@.len(),
            key == (|r: DatabaseQueryRow| by_database_row()((|r: DatabaseQueryRow| r@)(r))),
            models(keys@) == rows@.take(i as int).map_values(key),
        decreases rows.len() - i,
    {
        let row = &rows[i];
        let ghost was = keys@;
        let marks = (copied_text(&row.window), copied_text(&row.digest_id));
        keys.push(
            (
                row.node.clone(),
                (row.engine.clone(), (row.source.clone(), (row.digest.clone(), marks))),
            ),
        );
        assert(models(keys@) == models(was).push(key(rows@[i as int])));
        assert(rows@.take(i + 1).map_values(key) == rows@.take(i as int).map_values(key).push(
            key(rows@[i as int]),
        ));
        i += 1;
    }
    assert(rows@.take(i as int) == rows@);
    keys
}

fn add_text(labels: &mut Labels, name: &str, value: &Option<String>)
    ensures
        final(labels)@ == with_text(old(labels)@, name@, text_option(*value)),
{
    match value {
        Some(v) => {
            labels.insert(name.to_string(), v.clone());
        },
        None => {},
    }
}

fn named_database_row(row: &DatabaseQueryRow, grouping: &str) -> (r: Labels)
    ensures
        r@ == database_row_name(grouping@)(row@),
{
    let mut name = Labels::new();
    name.insert("node".to_string(), row.node.clone());
    name.insert("engine".to_string(), row.engine.clone());
    name.insert("source".to_string(), row.source.clone());
    name.insert(grouping.to_string(), row.digest.clone());
    add_text(&mut name, "window", &row.window);
    add_text(&mut name, "digest_id", &row.digest_id);
    name
}

/// Compares the answers to one query over the statements of two runs.
pub fn database_query_diff<F: Fn(Op) -> Number>(
    base: DatabaseQueryOutput,
    candidate: DatabaseQueryOutput,
    limit: usize,
    compute: &F,
) -> (r: QueryDiffOutput<DatabaseQueryRow>)
    requires
        is_arithmetic(*compute),
        base.rows@.len() + candidate.rows@.len() <= usize::MAX,
    ensures
        r.schema_version == 1,
        r.view@ == "database"@,
        r.base_run_id == base.run_id,
        r.candidate_run_id == candidate.run_id,
        r.window is None,
        r.grouping == Some(candidate.grouping),
        shows_rows(
            r,
            diff_rows::<DatabaseRowView, DatabaseRowKey>(
                database_row_views(base.rows@),
                database_row_views(candidate.rows@),
                by_database_row(),
                database_row_name(candidate.grouping@),
                database_changes(arithmetic(*compute)),
                "total_ms"@,
            ),
            limit,
        ),
        texts(r.warnings@) == all_warnings(texts(base.warnings@), texts(candidate.warnings@)),
{
    let ghost f = arithmetic(*compute);
    let ghost view = |r: DatabaseQueryRow| r@;
    let ghost key = |r: DatabaseQueryRow| by_database_row()(view(r));
    let base_rows = base.rows;
    let candidate_rows = candidate.rows;
    let base_keys = database_row_keys(&base_rows);
    let candidate_keys = database_row_keys(&candidate_rows);
    let ghost left = base_rows@;
    let ghost right = candidate_rows@;
    let pairs = pair_up(base_rows, base_keys, candidate_rows, candidate_keys, Ghost(key));
    proof {
        crate::join::pairs_through::<DatabaseQueryRow, DatabaseRowView, DatabaseRowKey>(left, right, view, by_database_row());
        crate::join::joins_lose_no_key::<DatabaseQueryRow, DatabaseRowKey>(left, right, key);
    }
    let ghost all = pairs@;
    let ghost pair_views = all.map_values(crate::join::both_views(view));
    let ghost finish = diff_row(database_row_name(candidate.grouping@), database_changes(f));
    let mut rows: Vec<QueryDiffRow<DatabaseQueryRow>> = Vec::new();
    for pair in it: pairs
        invariant
            is_arithmetic(*compute),
            f == arithmetic(*compute),
            it.seq() == all,
            view == (|r: DatabaseQueryRow| r@),
            pair_views == all.map_values(crate::join::both_views(view)),
            finish == diff_row(database_row_name(candidate.grouping@), database_changes(f)),
            forall|i: int|
                0 <= i < all.len() ==> (#[trigger] all[i]).0 is Some || all[i].1 is Some,
            diff_row_views(rows@) == pair_views.take(it.index() as int).map_values(finish),
    {
        let ghost n = it.index() as int;
        assert(all[n] == pair);
        let (one, two) = pair;
        let mut name = Labels::new();
        match (&one, &two) {
            (Some(row), _) => {
                name = named_database_row(row, candidate.grouping);
            },
            (None, Some(row)) => {
                name = named_database_row(row, candidate.grouping);
            },
            _ => {},
        }
        let changes = database_change_list(&one, &two, compute);
        let row = QueryDiffRow {
            key: name,
            presence: presence(&one, &two),
            base: one,
            candidate: two,
            changes,
        };
        proof {
            assert(pair_views[n] == (viewed(one), viewed(two)));
            assert(row@ == finish(pair_views[n]));
        }
        let ghost was = rows@;
        rows.push(row);
        assert(diff_row_views(rows@) == diff_row_views(was).push(row@));
        assert(pair_views.take(n + 1).map_values(finish) == pair_views.take(n).map_values(
            finish,
        ).push(finish(pair_views[n])));
    }
    assert(pair_views.take(pair_views.len() as int) == pair_views);
    let rows = sort_diff_rows(rows, "total_ms");
    finish_diff(
        "database",
        base.run_id,
        candidate.run_id,
        None,
        Some(candidate.grouping),
        rows,
        limit,
        combined_warnings(base.warnings, candidate.warnings),
    )
}

/// A route row is named by its node, its method and its route.
pub open spec fn http_row_name() -> spec_fn(RouteView) -> Seq<Pair> {
    |r: RouteView|
        {
            let none: Seq<Pair> = Seq::empty();
            let a = with_label(none, "node"@, r.node);
            let b = with_label(a, "method"@, r.method);
            with_label(b, "route"@, r.route)
        }
}

fn http_row_keys(rows: &Vec<HttpRouteSummary>) -> (keys: Vec<(String, (String, String))>)
    ensures
        models(keys@) == rows@.map_values(|r: HttpRouteSummary| by_http()((|r: HttpRouteSummary| r@)(r))),
{
    let ghost key = |r: HttpRouteSummary| by_http()((|r: HttpRouteSummary| r@)(r));
    let mut keys: Vec<(String, (String, String))> = Vec::new();
    let mut i: usize = 0;
    while i < rows.len()
        invariant
            i <= rows@.len(),
            key == (|r: HttpRouteSummary| by_http()((|r: HttpRouteSummary| r@)(r))),
            models(keys@) == rows@.take(i as int).map_values(key),
        decreases rows.len() - i,
    {
        let row = &rows[i];
        let ghost was = keys@;
        keys.push((row.node.clone(), (row.method.clone(), row.route.clone())));
        assert(models(keys@) == models(was).push(key(rows@[i as int])));
        assert(rows@.take(i + 1).map_values(key) == rows@.take(i as int).map_values(key).push(
            key(rows@[i as int]),
        ));
        i += 1;
    }
    assert(rows@.take(i as int) == rows@);
    keys
}

fn named_http_row(row: &HttpRouteSummary) -> (r: Labels)
    ensures
        r@ == http_row_name()(row@),
{
    let mut name = Labels::new();
    name.insert("node".to_string(), row.node.clone());
    name.insert("method".to_string(), row.method.clone());
    name.insert("route".to_string(), row.route.clone());
    name
}

/// Compares the answers to one query over the routes of two runs.
pub fn http_query_diff<F: Fn(Op) -> Number>(
    base: HttpQueryOutput,
    candidate: HttpQueryOutput,
    limit: usize,
    compute: &F,
) -> (r: QueryDiffOutput<HttpRouteSummary>)
    requires
        is_arithmetic(*compute),
        base.rows@.len() + candidate.rows@.len() <= usize::MAX,
    ensures
        r.schema_version == 1,
        r.view@ == "http"@,
        r.base_run_id == base.run_id,
        r.candidate_run_id == candidate.run_id,
        r.window is None,
        r.grouping is None,
        shows_rows(
            r,
            diff_rows::<RouteView, (String, (String, String))>(
                route_views(base.rows@),
                route_views(candidate.rows@),
                by_http(),
                http_row_name(),
                http_changes(arithmetic(*compute)),
                "total_ms"@,
            ),
            limit,
        ),
        r.warnings@.len() == 0,
{
    let ghost f = arithmetic(*compute);
    let ghost view = |r: HttpRouteSummary| r@;
    let ghost key = |r: HttpRouteSummary| by_http()(view(r));
    let base_rows = base.rows;
    let candidate_rows = candidate.rows;
    let base_keys = http_row_keys(&base_rows);
    let candidate_keys = http_row_keys(&candidate_rows);
    let ghost left = base_rows@;
    let ghost right = candidate_rows@;
    let pairs = pair_up(base_rows, base_keys, candidate_rows, candidate_keys, Ghost(key));
    proof {
        crate::join::pairs_through::<HttpRouteSummary, RouteView, (String, (String, String))>(left, right, view, by_http());
        crate::join::joins_lose_no_key::<HttpRouteSummary, (String, (String, String))>(left, right, key);
    }
    let ghost all = pairs@;
    let ghost pair_views = all.map_values(crate::join::both_views(view));
    let ghost finish = diff_row(http_row_name(), http_changes(f));
    let mut rows: Vec<QueryDiffRow<HttpRouteSummary>> = Vec::new();
    for pair in it: pairs
        invariant
            is_arithmetic(*compute),
            f == arithmetic(*compute),
            it.seq() == all,
            view == (|r: HttpRouteSummary| r@),
            pair_views == all.map_values(crate::join::both_views(view)),
            finish == diff_row(http_row_name(), http_changes(f)),
            forall|i: int|
                0 <= i < all.len() ==> (#[trigger] all[i]).0 is Some || all[i].1 is Some,
            diff_row_views(rows@) == pair_views.take(it.index() as int).map_values(finish),
    {
        let ghost n = it.index() as int;
        assert(all[n] == pair);
        let (one, two) = pair;
        let mut name = Labels::new();
        match (&one, &two) {
            (Some(row), _) => {
                name = named_http_row(row);
            },
            (None, Some(row)) => {
                name = named_http_row(row);
            },
            _ => {},
        }
        let changes = http_change_list(&one, &two, compute);
        let row = QueryDiffRow {
            key: name,
            presence: presence(&one, &two),
            base: one,
            candidate: two,
            changes,
        };
        proof {
            assert(pair_views[n] == (viewed(one), viewed(two)));
            assert(row@ == finish(pair_views[n]));
        }
        let ghost was = rows@;
        rows.push(row);
        assert(diff_row_views(rows@) == diff_row_views(was).push(row@));
        assert(pair_views.take(n + 1).map_values(finish) == pair_views.take(n).map_values(
            finish,
        ).push(finish(pair_views[n])));
    }
    assert(pair_views.take(pair_views.len() as int) == pair_views);
    let rows = sort_diff_rows(rows, "total_ms");
    finish_diff(
        "http",
        base.run_id,
        candidate.run_id,
        None,
        None,
        rows,
        limit,
        Vec::new(),
    )
}

} // verus!
