//! The short account of a run: what needs a decision, and little else.
use crate::changes::RunReview;
use crate::clock::{optional_rfc3339, rfc3339, time_text, to_rfc3339};
use crate::coverage::{coverage_views, CoverageSummary, CoverageView, ProfileArtifact};
use crate::join::{
    derefs, group_rows, grouped, keep, ref_views, sort_by_keys, value_views, with_key,
    with_key_holds, with_key_through,
};
use crate::labels::{lookup, with_label, Counts, Labels};
use crate::metric_semantics::MetricAggregation;
use crate::model::{
    all_messages, message_texts, messages_of_kind, on_calendar, reasons, BenchmarkMessage,
    BenchmarkMessageKind, CollectorResult, EnrichmentResult, Metric, RunManifest, Transition,
};
use crate::moment::Moment;
use crate::number::{apply, arithmetic, is_arithmetic, largest, maximum, Number, Op};
use crate::order::{
    distinct_sorted, models, stable_sorted, stable_sorted_through, Key, Rank, Reverse,
};
use crate::query::{
    answer, answers, by_metric_then_value, metric_row_views, round_database_summary, rounded,
    rounded_query, rounded_route, MetricQueryOptions, MetricQueryOutput, MetricQueryRow,
    MetricRowView, MetricValueKey, QueryScope,
};
use crate::report::{
    query_views, route_views, shortened, text_option, CpuSummary, DatabaseSummary, HttpRouteSummary,
    QueryView, RunDiagnostics,
};
use crate::runner::{has_short_id, short_id, short_of};
use crate::samples::{
    summaries, summarize_window, upstream_views, upstreams, upstreams_of, Family, SampledView,
    UpstreamSummary,
};
use crate::text::{
    append, chars_of, ends, ends_with, same, starts, starts_with, string_of, strip_ends,
    strip_starts, stripped_ends, stripped_starts, texts,
};
use crate::transition::{elapsed, elapsed_micros};
use crate::windows::Window;
use vstd::prelude::*;

verus! {

#[derive(Debug)]
pub struct BriefErrorSamples {
    pub category: Option<String>,
    pub samples: Vec<String>,
}

#[derive(Debug)]
pub struct BriefBenchmarkMessages {
    pub failure: Vec<String>,
    pub errors: Vec<BriefErrorSamples>,
    pub omitted_count: usize,
}

/// The values of `items`, each once, in the order in which they first occur.
pub open spec fn first_seen<M>(items: Seq<M>) -> Seq<M>
    decreases items.len(),
{
    if items.len() == 0 {
        Seq::empty()
    } else {
        let before = first_seen(items.drop_last());
        if items.drop_last().contains(items.last()) {
            before
        } else {
            before.push(items.last())
        }
    }
}

pub open spec fn category_of() -> spec_fn(BenchmarkMessage) -> Option<Seq<char>> {
    |m: BenchmarkMessage| text_option(m.category)
}

pub open spec fn sample_views(groups: Seq<BriefErrorSamples>) -> Seq<
    (Option<Seq<char>>, Seq<Seq<char>>),
> {
    groups.map_values(|g: BriefErrorSamples| (text_option(g.category), texts(g.samples@)))
}

/// The texts of each category, the categories in the order in which they first occur.
pub open spec fn by_category(messages: Seq<BenchmarkMessage>) -> Seq<
    (Option<Seq<char>>, Seq<Seq<char>>),
> {
    first_seen(messages.map_values(category_of())).map_values(
        |c: Option<Seq<char>>|
            (c, message_texts(with_key(messages, category_of(), c))),
    )
}

pub open spec fn omitted_total(enrichments: Seq<EnrichmentResult>) -> nat
    decreases enrichments.len(),
{
    if enrichments.len() == 0 {
        0
    } else {
        omitted_total(enrichments.drop_last()) + enrichments.last().omitted_message_count as nat
    }
}

proof fn omitted_total_grows(enrichments: Seq<EnrichmentResult>, i: int)
    requires
        0 <= i <= enrichments.len(),
    ensures
        omitted_total(enrichments.take(i)) <= omitted_total(enrichments),
    decreases enrichments.len() - i,
{
    if i < enrichments.len() {
        omitted_total_grows(enrichments, i + 1);
        assert(enrichments.take(i + 1).drop_last() == enrichments.take(i));
    } else {
        assert(enrichments.take(i) == enrichments);
    }
}

pub proof fn first_seen_holds<M>(items: Seq<M>)
    ensures
        first_seen(items).no_duplicates(),
        forall|x: M| #[trigger] first_seen(items).contains(x) <==> items.contains(x),
    decreases items.len(),
{
    if items.len() > 0 {
        let rest = items.drop_last();
        first_seen_holds(rest);
        let before = first_seen(rest);
        let all = first_seen(items);
        assert forall|x: M| #[trigger] all.contains(x) <==> items.contains(x) by {
            if items.contains(x) {
                let i = choose|i: int| 0 <= i < items.len() && items[i] == x;
                if i < rest.len() {
                    assert(rest[i] == x);
                    assert(before.contains(x));
                    let j = choose|j: int| 0 <= j < before.len() && before[j] == x;
                    assert(all[j] == x);
                } else if rest.contains(x) {
                    let j = choose|j: int| 0 <= j < before.len() && before[j] == x;
                    assert(before.contains(x));
                    assert(all.contains(x));
                } else {
                    assert(all[all.len() - 1] == x);
                }
            }
            if all.contains(x) {
                let j = choose|j: int| 0 <= j < all.len() && all[j] == x;
                if j < before.len() {
                    assert(before.contains(x));
                    let i = choose|i: int| 0 <= i < rest.len() && rest[i] == x;
                    assert(items[i] == x);
                } else {
                    assert(items[items.len() - 1] == x);
                }
            }
        }
        if !rest.contains(items.last()) {
            assert(!before.contains(items.last()));
        }
    }
}

/// One more message of a category that was seen joins its samples; of a new one, it opens them.
proof fn category_joins(seen: Seq<BenchmarkMessage>, m: BenchmarkMessage)
    ensures
        ({
            let c = category_of()(m);
            let cats = first_seen(seen.map_values(category_of()));
            let next = by_category(seen.push(m));
            let now = by_category(seen);
            &&& now.len() == cats.len()
            &&& forall|i: int| 0 <= i < now.len() ==> (#[trigger] now[i]).0 == cats[i]
            &&& cats.no_duplicates()
            &&& forall|g: int| 0 <= g < cats.len() && cats[g] == c ==> next == #[trigger] now.update(
                g,
                (c, now[g].1.push(m.text@)),
            )
            &&& !cats.contains(c) ==> next == now.push((c, seq![m.text@]))
        }),
{
    let c = category_of()(m);
    let keys = seen.map_values(category_of());
    let cats = first_seen(keys);
    let after = seen.push(m);
    let next = by_category(after);
    let now = by_category(seen);
    first_seen_holds(keys);
    assert(after.map_values(category_of()).drop_last() == keys);
    assert(after.map_values(category_of()).last() == c);
    assert(after.drop_last() == seen);
    reveal(Seq::filter);
    assert forall|k: Option<Seq<char>>| k != c implies #[trigger] with_key(
        after,
        category_of(),
        k,
    ) == with_key(seen, category_of(), k) by {}
    let own = with_key(seen, category_of(), c);
    assert(with_key(after, category_of(), c) == own.push(m));
    assert(message_texts(own.push(m)) == message_texts(own).push(m.text@));
    assert forall|g: int| 0 <= g < cats.len() && cats[g] == c implies next
        == #[trigger] now.update(g, (c, now[g].1.push(m.text@))) by {
        assert(cats.contains(c));
        assert(keys.contains(c));
        let goal = now.update(g, (c, now[g].1.push(m.text@)));
        assert forall|i: int| 0 <= i < next.len() implies next[i] == goal[i] by {
            if i != g {
                assert(cats[i] != c);
                assert(with_key(after, category_of(), cats[i]) == with_key(
                    seen,
                    category_of(),
                    cats[i],
                ));
            }
        }
        assert(next == goal);
    }
    if !cats.contains(c) {
        assert(!keys.contains(c));
        let goal = now.push((c, seq![m.text@]));
        assert(own.len() == 0) by {
            if own.len() > 0 {
                with_key_holds(seen, category_of(), c, 0);
                let i = choose|i: int| 0 <= i < seen.len() && seen[i] == own[0];
                assert(keys[i] == c);
            }
        }
        assert(message_texts(own).push(m.text@) == seq![m.text@]);
        assert forall|i: int| 0 <= i < next.len() implies next[i] == goal[i] by {
            if i < cats.len() {
                assert(cats.contains(cats[i]));
                assert(with_key(after, category_of(), cats[i]) == with_key(
                    seen,
                    category_of(),
                    cats[i],
                ));
            }
        }
        assert(next == goal);
    }
}

pub fn same_category(a: &Option<String>, b: &Option<String>) -> (r: bool)
    ensures
        r == (text_option(*a) == text_option(*b)),
{
    match (a, b) {
        (Some(x), Some(y)) => same(x.as_str(), y.as_str()),
        (None, None) => true,
        _ => false,
    }
}

/// What the benchmark said: why it failed, samples of its errors by category, and how many
/// messages the limits dropped.
pub fn benchmark_messages(run: &RunManifest) -> (r: BriefBenchmarkMessages)
    requires
        omitted_total(run.enrichments@) <= usize::MAX,
    ensures
        texts(r.failure@) == reasons(*run),
        sample_views(r.errors@) == by_category(
            messages_of_kind(all_messages(run.enrichments@), BenchmarkMessageKind::Error),
        ),
        r.omitted_count == omitted_total(run.enrichments@),
{
    let messages = run.benchmark_messages(BenchmarkMessageKind::Error);
    let ghost all = messages@.map_values(|m: &BenchmarkMessage| *m);
    let mut errors: Vec<BriefErrorSamples> = Vec::new();
    let mut i: usize = 0;
    assert(sample_views(errors@) == by_category(all.take(0)));
    while i < messages.len()
        invariant
            i <= messages@.len(),
            all == messages@.map_values(|m: &BenchmarkMessage| *m),
            sample_views(errors@) == by_category(all.take(i as int)),
        decreases messages.len() - i,
    {
        let message = messages[i];
        let ghost c = category_of()(*message);
        let ghost cats = first_seen(all.take(i as int).map_values(category_of()));
        proof {
            category_joins(all.take(i as int), *message);
            assert(all.take(i + 1) == all.take(i as int).push(*message));
        }
        let mut g: usize = 0;
        let mut found = false;
        while g < errors.len() && !found
            invariant
                g <= errors@.len(),
                sample_views(errors@).len() == cats.len(),
                forall|j: int| 0 <= j < cats.len() ==> (#[trigger] sample_views(errors@)[j]).0 == cats[j],
                c == category_of()(*message),
                found ==> g < errors@.len() && cats[g as int] == c,
                !found ==> forall|j: int| 0 <= j < g ==> cats[j] != c,
            decreases errors.len() - g + (if found { 0int } else { 1int }),
        {
            assert(sample_views(errors@)[g as int].0 == cats[g as int]);
            if same_category(&errors[g].category, &message.category) {
                found = true;
            } else {
                g += 1;
            }
        }
        let ghost before = sample_views(errors@);
        if found {
            let ghost was = errors@;
            let ghost old_samples = was[g as int].samples@;
            let mut group = take_group(&mut errors, g);
            let ghost had = group.samples@;
            group.samples.push(message.text.clone());
            assert(texts(group.samples@) == texts(had).push(message.text@));
            errors.set(g, group);
            assert(sample_views(errors@) == before.update(
                g as int,
                (c, before[g as int].1.push(message.text@)),
            ));
        } else {
            assert(!cats.contains(c));
            let mut samples: Vec<String> = Vec::new();
            samples.push(message.text.clone());
            assert(texts(samples@) == seq![message.text@]);
            let ghost was = errors@;
            let group = BriefErrorSamples { category: message.category.clone(), samples };
            errors.push(group);
            assert(sample_views(errors@) == before.push((c, seq![message.text@])));
        }
        i += 1;
    }
    assert(all.take(i as int) == all);
    let mut omitted: usize = 0;
    let mut j: usize = 0;
    while j < run.enrichments.len()
        invariant
            j <= run.enrichments@.len(),
            omitted == omitted_total(run.enrichments@.take(j as int)),
            omitted_total(run.enrichments@) <= usize::MAX,
        decreases run.enrichments.len() - j,
    {
        proof {
            omitted_total_grows(run.enrichments@, j + 1);
            assert(run.enrichments@.take(j + 1).drop_last() == run.enrichments@.take(j as int));
        }
        omitted += run.enrichments[j].omitted_message_count;
        j += 1;
    }
    assert(run.enrichments@.take(j as int) == run.enrichments@);
    BriefBenchmarkMessages { failure: run.failure_reasons(), errors, omitted_count: omitted }
}

/// Takes the group at position `g` out, leaving an empty one.
fn take_group(errors: &mut Vec<BriefErrorSamples>, g: usize) -> (r: BriefErrorSamples)
    requires
        g < old(errors)@.len(),
    ensures
        r == old(errors)@[g as int],
        final(errors)@.len() == old(errors)@.len(),
        forall|i: int|
            0 <= i < old(errors)@.len() && i != g ==> final(errors)@[i] == old(errors)@[i],
{
    let mut group = BriefErrorSamples { category: None, samples: Vec::new() };
    std::mem::swap(&mut group, &mut errors[g]);
    group
}

#[derive(Debug)]
pub struct BriefSection<T> {
    pub total_count: usize,
    pub truncated: bool,
    pub items: Vec<T>,
}

/// `s` shows the first `limit` of `all`.
pub open spec fn briefed<T>(all: Seq<T>, limit: usize, s: BriefSection<T>) -> bool {
    &&& s.total_count == all.len()
    &&& s.truncated == (all.len() > limit)
    &&& shortened(all, limit as int, s.items@)
}

pub fn section<T>(items: Vec<T>, limit: usize) -> (r: BriefSection<T>)
    ensures
        briefed(items@, limit, r),
{
    let mut items = items;
    let total_count: usize = items.len();
    let ghost all = items@;
    items.truncate(limit);
    assert(shortened(all, limit as int, items@)) by {
        if all.len() <= limit {
            assert(all.take(all.len() as int) == all);
        } else {
            assert(items@ == all.take(limit as int));
        }
    }
    BriefSection { total_count, truncated: total_count > items.len(), items }
}

/// What one collector left uncovered, on all the nodes where it did alike.
#[derive(Debug)]
pub struct CoverageIssueGroup {
    pub severity: &'static str,
    pub section: String,
    pub collector: String,
    pub phase: String,
    pub status: String,
    pub nodes: Vec<String>,
    pub missing_metrics: Vec<String>,
    pub errors: Vec<String>,
    pub occurrences: usize,
}

/// The mathematical value of a group of coverage issues.
#[verifier::ext_equal]
pub struct IssueView {
    pub severity: Seq<char>,
    pub section: Seq<char>,
    pub collector: Seq<char>,
    pub phase: Seq<char>,
    pub status: Seq<char>,
    pub nodes: Seq<Seq<char>>,
    pub missing_metrics: Seq<Seq<char>>,
    pub errors: Seq<Seq<char>>,
    pub occurrences: nat,
}

impl View for CoverageIssueGroup {
    type V = IssueView;

    open spec fn view(&self) -> IssueView {
        IssueView {
            severity: self.severity@,
            section: self.section@,
            collector: self.collector@,
            phase: self.phase@,
            status: self.status@,
            nodes: texts(self.nodes@),
            missing_metrics: texts(self.missing_metrics@),
            errors: texts(self.errors@),
            occurrences: self.occurrences as nat,
        }
    }
}

/// Something failed, or is missing.
pub open spec fn is_issue() -> spec_fn(CoverageView) -> bool {
    |c: CoverageView| c.status == "failed"@ || c.status == "missing"@
}

/// Nothing failed, but not everything is there.
pub open spec fn is_info() -> spec_fn(CoverageView) -> bool {
    |c: CoverageView| !is_issue()(c) && c.missing_metrics.len() > 0
}

pub type IssueKeyModel = (Seq<char>, (Seq<char>, (Seq<char>, (Seq<char>, Seq<Seq<char>>))));

pub type IssueKey = (String, (String, (String, (String, Vec<String>))));

pub open spec fn by_issue() -> spec_fn(CoverageView) -> IssueKeyModel {
    |c: CoverageView| (c.section, (c.collector, (c.phase, (c.status, c.missing_metrics))))
}

pub open spec fn severity_of(status: Seq<char>) -> Seq<char> {
    if status == "failed"@ {
        "critical"@
    } else {
        "warning"@
    }
}

pub open spec fn node_of() -> spec_fn(CoverageView) -> Seq<char> {
    |c: CoverageView| c.node
}

pub open spec fn has_error() -> spec_fn(CoverageView) -> bool {
    |c: CoverageView| c.error is Some
}

pub open spec fn error_of() -> spec_fn(CoverageView) -> Seq<char> {
    |c: CoverageView| c.error->0
}

/// The issue that rows with one key make together.
pub open spec fn issue_of(k: IssueKeyModel, rows: Seq<CoverageView>) -> IssueView {
    let nodes = distinct_sorted::<String>(rows.map_values(node_of()));
    IssueView {
        severity: severity_of(k.1.1.1.0),
        section: k.0,
        collector: k.1.0,
        phase: k.1.1.0,
        status: k.1.1.1.0,
        nodes,
        missing_metrics: k.1.1.1.1,
        errors: distinct_sorted::<String>(rows.filter(has_error()).map_values(error_of())),
        occurrences: nodes.len(),
    }
}

/// How urgent a severity is: the smaller, the more.
pub open spec fn urgency(severity: Seq<char>) -> int {
    if severity == "critical"@ {
        0
    } else if severity == "warning"@ {
        1
    } else {
        2
    }
}

/// Issues come by urgency, then by section and collector.
pub open spec fn by_urgency() -> spec_fn(IssueView) -> (int, (Seq<char>, Seq<char>)) {
    |i: IssueView| (urgency(i.severity), (i.section, i.collector))
}

pub type UrgencyKey = (i64, (String, String));

/// All issues of a coverage.
pub open spec fn issues(coverage: Seq<CoverageView>) -> Seq<IssueView> {
    let rows = coverage.filter(is_issue());
    stable_sorted::<IssueView, UrgencyKey>(
        distinct_sorted::<IssueKey>(rows.map_values(by_issue())).map_values(
            |k: IssueKeyModel| issue_of(k, with_key(rows, by_issue(), k)),
        ),
        by_urgency(),
    )
}

pub fn severity_rank(severity: &str) -> (r: i64)
    ensures
        r == urgency(severity@),
{
    if same(severity, "critical") {
        0
    } else if same(severity, "warning") {
        1
    } else {
        2
    }
}

/// The texts of a list, each once, in their order.
pub fn distinct_texts(list: &Vec<String>) -> (r: Vec<String>)
    ensures
        texts(r@) == distinct_sorted::<String>(texts(list@)),
{
    let groups = crate::order::group_by_key(list);
    let ghost m = models(list@);
    assert(m == texts(list@));
    proof {
        crate::order::grouping_keys::<String>(m, groups@);
    }
    let ghost names = distinct_sorted::<String>(m);
    let mut out: Vec<String> = Vec::new();
    let mut g: usize = 0;
    while g < groups.len()
        invariant
            g <= groups@.len(),
            m == models(list@),
            crate::order::grouping::<String>(m, groups@),
            crate::order::group_keys(m, groups@) == names,
            texts(out@) == names.take(g as int),
        decreases groups.len() - g,
    {
        let at: usize = groups[g][0];
        assert(names[g as int] == crate::order::group_key(m, groups@[g as int]));
        assert(m[at as int] == list@[at as int]@);
        let ghost was = out@;
        out.push(list[at].clone());
        assert(texts(out@) == texts(was).push(names[g as int]));
        assert(names.take(g + 1) == names.take(g as int).push(names[g as int]));
        g += 1;
    }
    assert(names.take(g as int) == names);
    out
}

proof fn filter_views<T, U>(items: Seq<T>, view: spec_fn(T) -> U, p: spec_fn(U) -> bool)
    ensures
        items.filter(|t: T| p(view(t))).map_values(view) == items.map_values(view).filter(p),
    decreases items.len(),
{
    reveal(Seq::filter);
    let through = |t: T| p(view(t));
    if items.len() > 0 {
        filter_views(items.drop_last(), view, p);
        assert(items.map_values(view).drop_last() == items.drop_last().map_values(view));
        let rest = items.drop_last().filter(through);
        assert(rest.push(items.last()).map_values(view) == rest.map_values(view).push(
            view(items.last()),
        ));
    } else {
        assert(items.filter(through).map_values(view) == items.map_values(view).filter(p));
    }
}

fn issue_from(rows: &Vec<&CoverageSummary>, Ghost(k): Ghost<IssueKeyModel>) -> (r: CoverageIssueGroup)
    requires
        rows@.len() > 0,
        forall|i: int| 0 <= i < rows@.len() ==> by_issue()((#[trigger] rows@[i])@) == k,
    ensures
        r@ == issue_of(k, coverage_views(derefs(rows@))),
{
    let ghost vs = coverage_views(derefs(rows@));
    let first = rows[0];
    assert(by_issue()(rows@[0]@) == k);
    let mut nodes: Vec<String> = Vec::new();
    let mut errors: Vec<String> = Vec::new();
    let mut i: usize = 0;
    proof {
        reveal(Seq::filter);
        assert(vs.take(0) == Seq::<CoverageView>::empty());
        assert(texts(errors@) == vs.take(0).filter(has_error()).map_values(error_of()));
    }
    while i < rows.len()
        invariant
            i <= rows@.len(),
            vs == coverage_views(derefs(rows@)),
            texts(nodes@) == vs.take(i as int).map_values(node_of()),
            texts(errors@) == vs.take(i as int).filter(has_error()).map_values(error_of()),
        decreases rows.len() - i,
    {
        let row = rows[i];
        assert(vs[i as int] == row@);
        let ghost was = nodes@;
        nodes.push(row.node.clone());
        proof {
            reveal(Seq::filter);
            assert(texts(nodes@) == texts(was).push(row@.node));
            assert(vs.take(i + 1).map_values(node_of()) == vs.take(i as int).map_values(
                node_of(),
            ).push(row@.node));
            assert(vs.take(i + 1).drop_last() == vs.take(i as int));
            assert(vs.take(i + 1).last() == row@);
        }
        if let Some(error) = &row.error {
            let ghost had = errors@;
            let ghost kept = vs.take(i as int).filter(has_error());
            errors.push(error.clone());
            assert(texts(errors@) == texts(had).push(error@));
            assert(kept.push(row@).map_values(error_of()) == kept.map_values(error_of()).push(
                error@,
            ));
        }
        i += 1;
    }
    assert(vs.take(i as int) == vs);
    let nodes = distinct_texts(&nodes);
    let errors = distinct_texts(&errors);
    let failed = same(first.status.as_str(), "failed");
    assert(texts(nodes@).len() == nodes@.len());
    CoverageIssueGroup {
        severity: if failed {
            "critical"
        } else {
            "warning"
        },
        section: first.section.clone(),
        collector: first.collector.clone(),
        phase: first.phase.clone(),
        status: first.status.clone(),
        occurrences: nodes.len(),
        nodes,
        missing_metrics: crate::diff::copied(&first.missing_metrics),
        errors,
    }
}

/// Groups what went uncovered, and counts the rows that only inform.
pub fn coverage_issues(coverage: Vec<CoverageSummary>) -> (r: (Vec<CoverageIssueGroup>, usize))
    ensures
        r.0@.map_values(|g: CoverageIssueGroup| g@) == issues(coverage_views(coverage@)),
        r.1 == coverage_views(coverage@).filter(is_info()).len(),
{
    let ghost views = coverage_views(coverage@);
    let ghost view = |c: CoverageSummary| c@;
    let ghost p = |c: CoverageSummary| is_issue()(view(c));
    let mut flags: Vec<bool> = Vec::new();
    let mut info: usize = 0;
    let mut i: usize = 0;
    proof {
        reveal(Seq::filter);
        assert(views.take(0) == Seq::<CoverageView>::empty());
    }
    while i < coverage.len()
        invariant
            i <= coverage@.len(),
            views == coverage_views(coverage@),
            view == (|c: CoverageSummary| c@),
            p == (|c: CoverageSummary| is_issue()(view(c))),
            flags@.len() == i,
            forall|j: int| 0 <= j < i ==> #[trigger] flags@[j] == p(coverage@[j]),
            info == views.take(i as int).filter(is_info()).len(),
            info <= i,
        decreases coverage.len() - i,
    {
        let c = &coverage[i];
        let issue = same(c.status.as_str(), "failed") || same(c.status.as_str(), "missing");
        flags.push(issue);
        proof {
            reveal(Seq::filter);
            assert(views.take(i + 1).drop_last() == views.take(i as int));
            assert(views.take(i + 1).last() == c@);
            assert(c@.missing_metrics.len() == c.missing_metrics@.len());
        }
        if !issue && c.missing_metrics.len() > 0 {
            info += 1;
        }
        i += 1;
    }
    assert(views.take(i as int) == views);
    let rows = keep(coverage.as_slice(), &flags, Ghost(p));
    let ghost items = derefs(rows@);
    let ghost vs = coverage_views(items);
    proof {
        filter_views(coverage@, view, is_issue());
        assert(vs == views.filter(is_issue()));
    }
    let ghost key = |c: CoverageSummary| by_issue()(view(c));
    let mut keys: Vec<IssueKey> = Vec::new();
    let mut j: usize = 0;
    while j < rows.len()
        invariant
            j <= rows@.len(),
            items == derefs(rows@),
            view == (|c: CoverageSummary| c@),
            key == (|c: CoverageSummary| by_issue()(view(c))),
            models(keys@) == items.take(j as int).map_values(key),
        decreases rows.len() - j,
    {
        let c = rows[j];
        let missing = crate::diff::copied(&c.missing_metrics);
        let ghost was = keys@;
        assert(models(missing@) == texts(missing@));
        keys.push(
            (
                c.section.clone(),
                (c.collector.clone(), (c.phase.clone(), (c.status.clone(), missing))),
            ),
        );
        assert(models(keys@) == models(was).push(key(items[j as int])));
        assert(items.take(j + 1).map_values(key) == items.take(j as int).map_values(key).push(
            key(items[j as int]),
        ));
        j += 1;
    }
    assert(items.take(j as int) == items);
    let groups = group_rows(&rows, &keys, Ghost(key));
    let ghost names = distinct_sorted::<IssueKey>(items.map_values(key));
    assert(items.map_values(key) == vs.map_values(by_issue()));
    let ghost each = |k: IssueKeyModel| issue_of(k, with_key(vs, by_issue(), k));
    let ghost shown = |g: CoverageIssueGroup| g@;
    let ghost through = |g: CoverageIssueGroup| by_urgency()(shown(g));
    let mut found: Vec<CoverageIssueGroup> = Vec::new();
    let mut ranks: Vec<UrgencyKey> = Vec::new();
    let mut g: usize = 0;
    while g < groups.len()
        invariant
            g <= groups@.len(),
            vs == coverage_views(items),
            view == (|c: CoverageSummary| c@),
            key == (|c: CoverageSummary| by_issue()(view(c))),
            names == distinct_sorted::<IssueKey>(items.map_values(key)),
            each == (|k: IssueKeyModel| issue_of(k, with_key(vs, by_issue(), k))),
            shown == (|g: CoverageIssueGroup| g@),
            through == (|g: CoverageIssueGroup| by_urgency()(shown(g))),
            groups@.len() == names.len(),
            forall|h: int|
                0 <= h < groups@.len() ==> derefs((#[trigger] groups@[h])@) == with_key(
                    items,
                    key,
                    names[h],
                ) && groups@[h]@.len() > 0,
            found@.map_values(shown) == names.take(g as int).map_values(each),
            models(ranks@) == found@.map_values(through),
        decreases groups.len() - g,
    {
        let members = &groups[g];
        let ghost k = names[g as int];
        proof {
            let part = derefs(members@);
            assert forall|x: int| 0 <= x < members@.len() implies by_issue()(
                (#[trigger] members@[x])@,
            ) == k by {
                assert(part[x] == *members@[x]);
                with_key_holds(items, key, k, x);
            }
            with_key_through(items, view, by_issue(), k);
            assert(coverage_views(part) == with_key(vs, by_issue(), k));
        }
        let group = issue_from(members, Ghost(k));
        let ghost was = found@;
        let ghost was_ranks = ranks@;
        ranks.push(
            (severity_rank(group.severity), (group.section.clone(), group.collector.clone())),
        );
        found.push(group);
        proof {
            assert(found@.map_values(shown) == was.map_values(shown).push(group@));
            assert(names.take(g + 1).map_values(each) == names.take(g as int).map_values(each).push(
                each(k),
            ));
            assert(models(ranks@) == models(was_ranks).push(through(group)));
            assert(found@.map_values(through) == was.map_values(through).push(through(group)));
        }
        g += 1;
    }
    assert(names.take(g as int) == names);
    proof {
        stable_sorted_through::<CoverageIssueGroup, IssueView, UrgencyKey>(
            found@,
            shown,
            by_urgency(),
        );
    }
    let sorted = sort_by_keys(found, &ranks, Ghost(through));
    (sorted, info)
}

/// Every row of a coverage is accounted for: it is complete, it only informs, or it stands in
/// exactly one issue, whose nodes hold its node.
pub proof fn coverage_rows_are_accounted_for(coverage: Seq<CoverageView>, i: int)
    requires
        0 <= i < coverage.len(),
        is_issue()(coverage[i]),
    ensures
        ({
            let rows = coverage.filter(is_issue());
            let k = by_issue()(coverage[i]);
            let keys = distinct_sorted::<IssueKey>(rows.map_values(by_issue()));
            &&& keys.contains(k)
            &&& issue_of(k, with_key(rows, by_issue(), k)).nodes.contains(coverage[i].node)
        }),
{
    let rows = coverage.filter(is_issue());
    let c = coverage[i];
    let k = by_issue()(c);
    coverage.lemma_filter_contains(is_issue(), i);
    assert(rows.contains(c));
    let j = choose|j: int| 0 <= j < rows.len() && rows[j] == c;
    assert(rows.map_values(by_issue())[j] == k);
    assert(rows.map_values(by_issue()).contains(k));
    crate::order::distinct_sorted_holds::<IssueKey>(rows.map_values(by_issue()));
    let own = with_key(rows, by_issue(), k);
    let same_key = |x: CoverageView| by_issue()(x) == k;
    assert(same_key(rows[j]));
    rows.lemma_filter_contains(same_key, j);
    assert(own.contains(c));
    let x = choose|x: int| 0 <= x < own.len() && own[x] == c;
    assert(own.map_values(node_of())[x] == c.node);
    assert(own.map_values(node_of()).contains(c.node));
    crate::order::distinct_sorted_holds::<String>(own.map_values(node_of()));
}

pub open spec fn in_window(window: Seq<char>) -> spec_fn(QueryView) -> bool {
    |q: QueryView| q.window == Some(window)
}

pub open spec fn not_from_slp() -> spec_fn(QueryView) -> bool {
    |q: QueryView| q.source != "slp"@
}

pub open spec fn slp_completed(collectors: Seq<CollectorResult>) -> bool {
    exists|i: int|
        0 <= i < collectors.len() && (#[trigger] collectors[i]).name@ == "slp"@
            && collectors[i].status@ == "complete"@
}

/// The statements were summarized by the part of the benchmark they ran in: some row says so, or
/// there is no row and the collector that does so completed.
pub open spec fn windowed(rows: Seq<QueryView>, run: RunManifest) -> bool {
    ||| exists|i: int| 0 <= i < rows.len() && (#[trigger] rows[i]).window is Some
    ||| rows.len() == 0 && slp_completed(run.collectors@)
}

/// The load was told apart from the initialization.
pub open spec fn load_known(rows: Seq<QueryView>, run: RunManifest) -> bool {
    ||| run.benchmark.initialize_finished_at is Some
    ||| exists|i: int|
        0 <= i < rows.len() && ((#[trigger] rows[i]).window == Some("load"@) || rows[i].window
            == Some("initialize"@))
}

/// The part of the benchmark whose statements are shown. It follows from the record of the run,
/// not from which rows there are: a load without statements is shown as such.
pub open spec fn shown_window(rows: Seq<QueryView>, run: RunManifest) -> Option<Seq<char>> {
    if windowed(rows, run) {
        Some(if load_known(rows, run) {
            "load"@
        } else {
            "whole"@
        })
    } else {
        None
    }
}

pub open spec fn from_log_delta(rows: Seq<QueryView>) -> bool {
    exists|i: int| 0 <= i < rows.len() && (#[trigger] rows[i]).source == "mysql-log-delta"@
}

/// The statements that are shown.
pub open spec fn shown_queries(rows: Seq<QueryView>, run: RunManifest) -> Seq<QueryView> {
    match shown_window(rows, run) {
        Some(window) => rows.filter(in_window(window)),
        None => if from_log_delta(rows) {
            rows.filter(not_from_slp())
        } else {
            rows
        },
    }
}

fn window_is(row: &DatabaseSummary, window: &str) -> (r: bool)
    ensures
        r == (row@.window == Some(window@)),
{
    match &row.window {
        Some(w) => same(w.as_str(), window),
        None => false,
    }
}

fn completed(collectors: &Vec<CollectorResult>) -> (r: bool)
    ensures
        r == slp_completed(collectors@),
{
    let mut i: usize = 0;
    while i < collectors.len()
        invariant
            i <= collectors@.len(),
            forall|j: int|
                0 <= j < i ==> !((#[trigger] collectors@[j]).name@ == "slp"@
                    && collectors@[j].status@ == "complete"@),
        decreases collectors.len() - i,
    {
        if same(collectors[i].name.as_str(), "slp") && same(
            collectors[i].status.as_str(),
            "complete",
        ) {
            return true;
        }
        i += 1;
    }
    false
}

/// Narrows the statements to one collector and one part of the benchmark; also gives the number
/// of rows left out and the part shown.
pub fn preferred_database(database: Vec<DatabaseSummary>, run: &RunManifest) -> (r: (
    Vec<DatabaseSummary>,
    usize,
    Option<String>,
))
    ensures
        query_views(r.0@) == shown_queries(query_views(database@), *run),
        r.1 == database@.len() - r.0@.len(),
        text_option(r.2) == shown_window(query_views(database@), *run),
{
    let ghost rows = query_views(database@);
    let total_count: usize = database.len();
    let mut some_window = false;
    let mut some_split = false;
    let mut some_delta = false;
    let mut i: usize = 0;
    while i < database.len()
        invariant
            i <= database@.len(),
            rows == query_views(database@),
            some_window == exists|j: int| 0 <= j < i && (#[trigger] rows[j]).window is Some,
            some_split == exists|j: int|
                0 <= j < i && ((#[trigger] rows[j]).window == Some("load"@) || rows[j].window
                    == Some("initialize"@)),
            some_delta == exists|j: int|
                0 <= j < i && (#[trigger] rows[j]).source == "mysql-log-delta"@,
        decreases database.len() - i,
    {
        let row = &database[i];
        assert(rows[i as int] == row@);
        if row.window.is_some() {
            some_window = true;
        }
        if window_is(row, "load") || window_is(row, "initialize") {
            some_split = true;
        }
        if same(row.source.as_str(), "mysql-log-delta") {
            some_delta = true;
        }
        i += 1;
    }
    let windowed = some_window || (total_count == 0 && completed(&run.collectors));
    let split = run.benchmark.initialize_finished_at.is_some() || some_split;
    let window: Option<&str> = if windowed {
        Some(
            if split {
                "load"
            } else {
                "whole"
            },
        )
    } else {
        None
    };
    let by_source = window.is_none() && some_delta;
    let ghost p = if window is Some {
        in_window(window->0@)
    } else if by_source {
        not_from_slp()
    } else {
        |q: QueryView| true
    };
    let ghost all = database@;
    let mut shown: Vec<DatabaseSummary> = Vec::new();
    proof {
        reveal(Seq::filter);
        assert(rows.take(0) == Seq::<QueryView>::empty());
        assert(query_views(shown@) == rows.take(0).filter(p));
    }
    for row in it: database
        invariant
            it.seq() == all,
            rows == query_views(all),
            p == (if window is Some {
                in_window(window->0@)
            } else if by_source {
                not_from_slp()
            } else {
                |q: QueryView| true
            }),
            query_views(shown@) == rows.take(it.index() as int).filter(p),
            shown@.len() <= it.index(),
    {
        proof {
            reveal(Seq::filter);
            let n = it.index() as int;
            assert(rows.take(n + 1).drop_last() == rows.take(n));
            assert(rows.take(n + 1).last() == row@);
        }
        let keep = match window {
            Some(w) => window_is(&row, w),
            None => !by_source || !same(row.source.as_str(), "slp"),
        };
        if keep {
            let ghost was = shown@;
            shown.push(row);
            assert(query_views(shown@) == query_views(was).push(row@));
        }
    }
    assert(rows.take(all.len() as int) == rows);
    proof {
        if window is None && !by_source {
            assert(rows.filter(p) == rows) by {
                keeps_all(rows, p);
            }
        }
    }
    let omitted: usize = total_count - shown.len();
    let window = match window {
        Some(w) => Some(w.to_string()),
        None => None,
    };
    (shown, omitted, window)
}

proof fn keeps_all<T>(items: Seq<T>, p: spec_fn(T) -> bool)
    requires
        forall|t: T| #[trigger] p(t),
    ensures
        items.filter(p) == items,
    decreases items.len(),
{
    reveal(Seq::filter);
    if items.len() > 0 {
        keeps_all(items.drop_last(), p);
        assert(items == items.drop_last().push(items.last()));
        assert(p(items.last()));
    }
}

/// A run whose load is known never shows statements of its initialization.
pub proof fn initialization_is_not_shown_as_load(rows: Seq<QueryView>, run: RunManifest)
    requires
        run.benchmark.initialize_finished_at is Some,
        windowed(rows, run),
    ensures
        shown_window(rows, run) == Some("load"@),
        forall|i: int|
            0 <= i < shown_queries(rows, run).len() ==> (#[trigger] shown_queries(rows, run)[i]).window
                == Some("load"@),
{
    assert forall|i: int| 0 <= i < shown_queries(rows, run).len() implies (
    #[trigger] shown_queries(rows, run)[i]).window == Some("load"@) by {
        rows.lemma_filter_pred(in_window("load"@), i);
    }
}

/// Orders rows by metric, and within one metric by value, the largest first.
pub fn by_metric_then_magnitude(rows: Vec<MetricQueryRow>) -> (r: Vec<MetricQueryRow>)
    ensures
        metric_row_views(r@) == stable_sorted::<MetricRowView, MetricValueKey>(
            metric_row_views(rows@),
            by_metric_then_value(),
        ),
{
    let ghost view = |r: MetricQueryRow| r@;
    let ghost through = |r: MetricQueryRow| by_metric_then_value()(view(r));
    let mut ranks: Vec<MetricValueKey> = Vec::new();
    let mut i: usize = 0;
    while i < rows.len()
        invariant
            i <= rows@.len(),
            view == (|r: MetricQueryRow| r@),
            through == (|r: MetricQueryRow| by_metric_then_value()(view(r))),
            models(ranks@) == rows@.take(i as int).map_values(through),
        decreases rows.len() - i,
    {
        let least = Number { bits: 0xfff0_0000_0000_0000 };
        let value = match rows[i].value {
            Some(v) => v,
            None => least,
        };
        let ghost was = ranks@;
        ranks.push((rows[i].metric.clone(), Reverse { key: value }));
        assert(models(ranks@) == models(was).push(through(rows@[i as int])));
        assert(rows@.take(i + 1).map_values(through) == rows@.take(i as int).map_values(
            through,
        ).push(through(rows@[i as int])));
        i += 1;
    }
    assert(rows@.take(i as int) == rows@);
    proof {
        stable_sorted_through::<MetricQueryRow, MetricRowView, MetricValueKey>(
            rows@,
            view,
            by_metric_then_value(),
        );
    }
    sort_by_keys(rows, &ranks, Ghost(through))
}

/// One sampled metric of one node over the part of the benchmark that is summarized.
#[derive(Debug)]
pub struct SampledMetric {
    pub node: String,
    pub metric: String,
    pub target: String,
    pub source: String,
    pub labels: Labels,
    pub unit: String,
    pub aggregation: MetricAggregation,
    pub value: Option<Number>,
    pub peak: Number,
    pub peak_at: Option<Moment>,
    pub samples: usize,
}

/// How the benchmark used its connections to one node.
#[derive(Debug)]
pub struct BriefClientNode {
    pub node: String,
    pub connections_in_use: Option<Number>,
    pub connections_in_use_peak: Option<Number>,
    pub connections_opened_per_second: Option<Number>,
    pub request_gap_ms: Counts,
    pub requests_per_connection: Option<Number>,
}

/// The mathematical value of a client row.
#[verifier::ext_equal]
pub struct ClientView {
    pub node: Seq<char>,
    pub connections_in_use: Option<Number>,
    pub connections_in_use_peak: Option<Number>,
    pub connections_opened_per_second: Option<Number>,
    pub request_gap_ms: Seq<(Seq<char>, Number)>,
    pub requests_per_connection: Option<Number>,
}

impl View for BriefClientNode {
    type V = ClientView;

    open spec fn view(&self) -> ClientView {
        ClientView {
            node: self.node@,
            connections_in_use: self.connections_in_use,
            connections_in_use_peak: self.connections_in_use_peak,
            connections_opened_per_second: self.connections_opened_per_second,
            request_gap_ms: self.request_gap_ms@,
            requests_per_connection: self.requests_per_connection,
        }
    }
}

pub open spec fn of_node() -> spec_fn(SampledView) -> Seq<char> {
    |m: SampledView| m.node
}

/// The first row of the metric `name`.
pub open spec fn first_named(rows: Seq<SampledView>, name: Seq<char>) -> Option<SampledView>
    decreases rows.len(),
{
    if rows.len() == 0 {
        None
    } else if rows[0].metric == name {
        Some(rows[0])
    } else {
        first_named(rows.skip(1), name)
    }
}

pub open spec fn value_named(rows: Seq<SampledView>, name: Seq<char>) -> Option<Number> {
    match first_named(rows, name) {
        Some(row) => row.value,
        None => None,
    }
}

pub open spec fn peak_named(rows: Seq<SampledView>, name: Seq<char>) -> Option<Number> {
    match first_named(rows, name) {
        Some(row) => Some(row.peak),
        None => None,
    }
}

/// The waits between requests on one connection, by quantile.
pub open spec fn request_gaps(
    f: spec_fn(Op) -> Number,
    rows: Seq<SampledView>,
) -> Seq<(Seq<char>, Number)>
    decreases rows.len(),
{
    if rows.len() == 0 {
        Seq::empty()
    } else {
        let before = request_gaps(f, rows.drop_last());
        let row = rows.last();
        match lookup(row.labels, "quantile"@) {
            Some(quantile) => if row.metric == "client.request_gap"@ {
                with_label(
                    before,
                    "p"@ + strip_starts(quantile, "0."@),
                    f(Op::Round(row.peak, 3)),
                )
            } else {
                before
            },
            None => before,
        }
    }
}

/// The row of one node. The connections that were opened are a total of the part summarized, so
/// its length makes them a rate.
pub open spec fn client_of(
    f: spec_fn(Op) -> Number,
    seconds: Option<Number>,
    node: Seq<char>,
    rows: Seq<SampledView>,
) -> ClientView {
    let opened = value_named(rows, "client.connections_opened"@);
    ClientView {
        node,
        connections_in_use: rounded(f, value_named(rows, "client.connections_in_use"@), 1),
        connections_in_use_peak: rounded(f, peak_named(rows, "client.connections_in_use"@), 1),
        connections_opened_per_second: if opened is Some && seconds is Some {
            Some(f(Op::Round(f(Op::Divide(opened->0, seconds->0)), 1)))
        } else {
            None
        },
        request_gap_ms: request_gaps(f, rows),
        requests_per_connection: rounded(
            f,
            value_named(rows, "client.connection_requests_mean"@),
            2,
        ),
    }
}

pub open spec fn clients(
    f: spec_fn(Op) -> Number,
    seconds: Option<Number>,
    rows: Seq<SampledView>,
) -> Seq<ClientView> {
    distinct_sorted::<String>(rows.map_values(of_node())).map_values(
        |node: Seq<char>| client_of(f, seconds, node, with_key(rows, of_node(), node)),
    )
}

fn find_named<'a>(rows: &Vec<&'a SampledMetric>, name: &str) -> (r: Option<&'a SampledMetric>)
    ensures
        match r {
            Some(row) => first_named(ref_views(rows@), name@) == Some(row@),
            None => first_named(ref_views(rows@), name@) is None,
        },
{
    let ghost all = ref_views(rows@);
    let mut i: usize = 0;
    assert(all.skip(0) == all);
    while i < rows.len()
        invariant
            i <= rows@.len(),
            all == ref_views(rows@),
            first_named(all, name@) == first_named(all.skip(i as int), name@),
        decreases rows.len() - i,
    {
        assert(all.skip(i as int)[0] == rows@[i as int]@);
        assert(all.skip(i as int).skip(1) == all.skip(i + 1));
        if same(rows[i].metric.as_str(), name) {
            return Some(rows[i]);
        }
        i += 1;
    }
    None
}

fn round_some<F: Fn(Op) -> Number>(value: Option<Number>, decimals: u32, compute: &F) -> (r:
    Option<Number>)
    requires
        is_arithmetic(*compute),
    ensures
        r == rounded(arithmetic(*compute), value, decimals),
{
    match value {
        Some(v) => Some(apply(compute, Op::Round(v, decimals))),
        None => None,
    }
}

fn gaps_from<F: Fn(Op) -> Number>(rows: &Vec<&SampledMetric>, compute: &F) -> (r: Counts)
    requires
        is_arithmetic(*compute),
    ensures
        r@ == request_gaps(arithmetic(*compute), ref_views(rows@)),
{
    let ghost f = arithmetic(*compute);
    let ghost all = ref_views(rows@);
    let mut out = Counts::new();
    let mut i: usize = 0;
    assert(all.take(0) == Seq::<SampledView>::empty());
    while i < rows.len()
        invariant
            is_arithmetic(*compute),
            f == arithmetic(*compute),
            i <= rows@.len(),
            all == ref_views(rows@),
            out@ == request_gaps(f, all.take(i as int)),
        decreases rows.len() - i,
    {
        let row = rows[i];
        assert(all.take(i + 1).drop_last() == all.take(i as int));
        assert(all.take(i + 1).last() == row@);
        if same(row.metric.as_str(), "client.request_gap") {
            if let Some(quantile) = row.labels.get("quantile") {
                let mut name = chars_of("p");
                let digits = stripped_starts(
                    chars_of(quantile.as_str()).as_slice(),
                    chars_of("0.").as_slice(),
                );
                append(&mut name, digits.as_slice());
                out.insert(
                    string_of(name.as_slice()),
                    apply(compute, Op::Round(row.peak, 3)),
                );
            }
        }
        i += 1;
    }
    assert(all.take(i as int) == all);
    out
}

fn grouped_by_node<'a>(rows: &'a [SampledMetric]) -> (r: Vec<Vec<&'a SampledMetric>>)
    ensures
        ({
            let names = distinct_sorted::<String>(value_views(rows@).map_values(of_node()));
            &&& r@.len() == names.len()
            &&& forall|g: int|
                0 <= g < r@.len() ==> ref_views((#[trigger] r@[g])@) == with_key(
                    value_views(rows@),
                    of_node(),
                    names[g],
                ) && r@[g]@.len() > 0 && r@[g]@[0].node@ == names[g]
        }),
{
    let ghost all = value_views(rows@);
    let mut keys: Vec<String> = Vec::new();
    let mut i: usize = 0;
    while i < rows.len()
        invariant
            i <= rows@.len(),
            all == value_views(rows@),
            models(keys@) == all.take(i as int).map_values(of_node()),
        decreases rows.len() - i,
    {
        let ghost was_keys = keys@;
        keys.push(rows[i].node.clone());
        assert(models(keys@) == models(was_keys).push(of_node()(all[i as int])));
        assert(all.take(i + 1).map_values(of_node()) == all.take(i as int).map_values(
            of_node(),
        ).push(of_node()(all[i as int])));
        i += 1;
    }
    assert(all.take(i as int) == all);
    let groups = grouped(rows, &keys, Ghost(of_node()));
    proof {
        let names = distinct_sorted::<String>(all.map_values(of_node()));
        assert forall|g: int| 0 <= g < groups@.len() implies (#[trigger] groups@[g])@[0].node@
            == names[g] by {
            with_key_holds(all, of_node(), names[g], 0);
            assert(ref_views(groups@[g]@)[0] == groups@[g]@[0]@);
        }
    }
    groups
}

/// Folds what is known of the benchmark's connections into one row for each node.
pub fn client_nodes<F: Fn(Op) -> Number>(
    rows: &[SampledMetric],
    window_seconds: Option<Number>,
    compute: &F,
) -> (r: Vec<BriefClientNode>)
    requires
        is_arithmetic(*compute),
    ensures
        r@.map_values(|c: BriefClientNode| c@) == clients(
            arithmetic(*compute),
            window_seconds,
            value_views(rows@),
        ),
{
    let ghost f = arithmetic(*compute);
    let groups = grouped_by_node(rows);
    let ghost names = distinct_sorted::<String>(value_views(rows@).map_values(of_node()));
    let ghost each = |node: Seq<char>|
        client_of(f, window_seconds, node, with_key(value_views(rows@), of_node(), node));
    let ghost shown = |c: BriefClientNode| c@;
    let mut out: Vec<BriefClientNode> = Vec::new();
    let mut g: usize = 0;
    while g < groups.len()
        invariant
            is_arithmetic(*compute),
            f == arithmetic(*compute),
            g <= groups@.len(),
            groups@.len() == names.len(),
            forall|h: int|
                0 <= h < groups@.len() ==> ref_views((#[trigger] groups@[h])@) == with_key(
                    value_views(rows@),
                    of_node(),
                    names[h],
                ) && groups@[h]@.len() > 0 && groups@[h]@[0].node@ == names[h],
            each == (|node: Seq<char>|
                client_of(f, window_seconds, node, with_key(value_views(rows@), of_node(), node))),
            shown == (|c: BriefClientNode| c@),
            out@.map_values(shown) == names.take(g as int).map_values(each),
        decreases groups.len() - g,
    {
        let members = &groups[g];
        let in_use = find_named(members, "client.connections_in_use");
        let opened = match find_named(members, "client.connections_opened") {
            Some(row) => row.value,
            None => None,
        };
        let per_connection = match find_named(members, "client.connection_requests_mean") {
            Some(row) => row.value,
            None => None,
        };
        let row = BriefClientNode {
            node: members[0].node.clone(),
            connections_in_use: round_some(
                match in_use {
                    Some(row) => row.value,
                    None => None,
                },
                1,
                compute,
            ),
            connections_in_use_peak: round_some(
                match in_use {
                    Some(row) => Some(row.peak),
                    None => None,
                },
                1,
                compute,
            ),
            connections_opened_per_second: match (opened, window_seconds) {
                (Some(total), Some(seconds)) => {
                    let rate = apply(compute, Op::Divide(total, seconds));
                    Some(apply(compute, Op::Round(rate, 1)))
                },
                _ => None,
            },
            request_gap_ms: gaps_from(members, compute),
            requests_per_connection: round_some(per_connection, 2, compute),
        };
        assert(row@ == each(names[g as int]));
        let ghost was = out@;
        out.push(row);
        assert(out@.map_values(shown) == was.map_values(shown).push(row@));
        assert(names.take(g + 1).map_values(each) == names.take(g as int).map_values(each).push(
            each(names[g as int]),
        ));
        g += 1;
    }
    assert(names.take(g as int) == names);
    out
}

#[derive(Debug)]
pub struct BriefPressure {
    pub resource: String,
    pub peak_percent: Number,
}

#[derive(Debug)]
pub struct BriefService {
    pub service: String,
    pub cpu_cores_peak: Number,
}

/// One node at a glance.
#[derive(Debug)]
pub struct BriefHostNode {
    pub node: String,
    pub cpu_busy_percent: Option<Number>,
    pub cpu_busy_peak_percent: Option<Number>,
    pub busiest_core_peak_percent: Option<Number>,
    pub iowait_percent: Option<Number>,
    pub steal_percent: Option<Number>,
    pub pressure: Option<BriefPressure>,
    pub load1_peak: Option<Number>,
    pub memory_used_peak_bytes: Option<Number>,
    pub disk_util_peak_percent: Option<Number>,
    pub top_services: Vec<BriefService>,
    pub detail_rows: usize,
}

/// The mathematical value of a host row.
#[verifier::ext_equal]
pub struct HostNodeView {
    pub node: Seq<char>,
    pub cpu_busy_percent: Option<Number>,
    pub cpu_busy_peak_percent: Option<Number>,
    pub busiest_core_peak_percent: Option<Number>,
    pub iowait_percent: Option<Number>,
    pub steal_percent: Option<Number>,
    pub pressure: Option<(Seq<char>, Number)>,
    pub load1_peak: Option<Number>,
    pub memory_used_peak_bytes: Option<Number>,
    pub disk_util_peak_percent: Option<Number>,
    pub top_services: Seq<(Seq<char>, Number)>,
    pub detail_rows: nat,
}

pub open spec fn service_views(services: Seq<BriefService>) -> Seq<(Seq<char>, Number)> {
    services.map_values(|s: BriefService| (s.service@, s.cpu_cores_peak))
}

impl View for BriefHostNode {
    type V = HostNodeView;

    open spec fn view(&self) -> HostNodeView {
        HostNodeView {
            node: self.node@,
            cpu_busy_percent: self.cpu_busy_percent,
            cpu_busy_peak_percent: self.cpu_busy_peak_percent,
            busiest_core_peak_percent: self.busiest_core_peak_percent,
            iowait_percent: self.iowait_percent,
            steal_percent: self.steal_percent,
            pressure: match self.pressure {
                Some(p) => Some((p.resource@, p.peak_percent)),
                None => None,
            },
            load1_peak: self.load1_peak,
            memory_used_peak_bytes: self.memory_used_peak_bytes,
            disk_util_peak_percent: self.disk_util_peak_percent,
            top_services: service_views(self.top_services@),
            detail_rows: self.detail_rows as nat,
        }
    }
}

pub open spec fn is_named(name: Seq<char>) -> spec_fn(SampledView) -> bool {
    |m: SampledView| m.metric == name
}

pub open spec fn is_valued(name: Seq<char>) -> spec_fn(SampledView) -> bool {
    |m: SampledView| m.metric == name && m.value is Some
}

pub open spec fn value_of() -> spec_fn(SampledView) -> Number {
    |m: SampledView| m.value->0
}

pub open spec fn peak_of() -> spec_fn(SampledView) -> Number {
    |m: SampledView| m.peak
}

pub open spec fn largest_of(values: Seq<Number>) -> Option<Number> {
    if values.len() == 0 {
        None
    } else {
        Some(largest(values, values.len() as int))
    }
}

/// The largest value of the metric `name`, rounded.
pub open spec fn top_value(
    f: spec_fn(Op) -> Number,
    rows: Seq<SampledView>,
    name: Seq<char>,
) -> Option<Number> {
    rounded(f, largest_of(rows.filter(is_valued(name)).map_values(value_of())), 2)
}

/// The largest peak of the metric `name`, rounded.
pub open spec fn top_peak(
    f: spec_fn(Op) -> Number,
    rows: Seq<SampledView>,
    name: Seq<char>,
) -> Option<Number> {
    rounded(f, largest_of(rows.filter(is_named(name)).map_values(peak_of())), 2)
}

pub open spec fn or_else(a: Option<Number>, b: Option<Number>) -> Option<Number> {
    if a is Some {
        a
    } else {
        b
    }
}

/// A share of the time in which tasks waited for a resource.
pub open spec fn is_pressure() -> spec_fn(SampledView) -> bool {
    |m: SampledView| starts(m.metric, "host.psi_"@) && ends(m.metric, "_some_percent"@)
}

/// The last of the rows with the highest peak.
pub open spec fn highest(rows: Seq<SampledView>) -> SampledView
    decreases rows.len(),
{
    if rows.len() <= 1 {
        rows[0]
    } else {
        let before = highest(rows.drop_last());
        if rows.last().peak.place() >= before.peak.place() {
            rows.last()
        } else {
            before
        }
    }
}

/// The resource that tasks waited for most, and the peak of that.
pub open spec fn pressure_of(f: spec_fn(Op) -> Number, rows: Seq<SampledView>) -> Option<
    (Seq<char>, Number),
> {
    let found = rows.filter(is_pressure());
    if found.len() == 0 {
        None
    } else {
        let row = highest(found);
        Some(
            (
                strip_ends(strip_starts(row.metric, "host.psi_"@), "_some_percent"@),
                f(Op::Round(row.peak, 2)),
            ),
        )
    }
}

pub open spec fn service_of(f: spec_fn(Op) -> Number) -> spec_fn(SampledView) -> (
    Seq<char>,
    Number,
) {
    |m: SampledView| (m.target, f(Op::Round(m.peak, 3)))
}

pub open spec fn by_cores() -> spec_fn((Seq<char>, Number)) -> int {
    |s: (Seq<char>, Number)| s.1.place()
}

/// The three services that used the processor most.
pub open spec fn services_of(f: spec_fn(Op) -> Number, rows: Seq<SampledView>) -> Seq<
    (Seq<char>, Number),
> {
    let all = stable_sorted::<(Seq<char>, Number), Reverse<Number>>(
        rows.filter(is_named("service.cpu_cores"@)).map_values(service_of(f)),
        by_cores(),
    );
    all.take(if all.len() <= 3 {
        all.len() as int
    } else {
        3
    })
}

pub open spec fn host_node_of(
    f: spec_fn(Op) -> Number,
    node: Seq<char>,
    rows: Seq<SampledView>,
) -> HostNodeView {
    HostNodeView {
        node,
        cpu_busy_percent: or_else(
            top_value(f, rows, "host.cpu_busy_percent"@),
            top_value(f, rows, "host.cpu_percent"@),
        ),
        cpu_busy_peak_percent: or_else(
            top_peak(f, rows, "host.cpu_busy_percent"@),
            top_peak(f, rows, "host.cpu_percent"@),
        ),
        busiest_core_peak_percent: or_else(
            top_peak(f, rows, "host.core_busy_max_percent"@),
            top_peak(f, rows, "host.core_busy_percent"@),
        ),
        iowait_percent: top_value(f, rows, "host.cpu_iowait_percent"@),
        steal_percent: top_value(f, rows, "host.cpu_steal_percent"@),
        pressure: pressure_of(f, rows),
        load1_peak: top_peak(f, rows, "host.load1"@),
        memory_used_peak_bytes: top_peak(f, rows, "host.memory_used_bytes"@),
        disk_util_peak_percent: top_peak(f, rows, "host.disk_util_percent"@),
        top_services: services_of(f, rows),
        detail_rows: rows.len(),
    }
}

pub open spec fn host_nodes_of(f: spec_fn(Op) -> Number, rows: Seq<SampledView>) -> Seq<
    HostNodeView,
> {
    distinct_sorted::<String>(rows.map_values(of_node())).map_values(
        |node: Seq<char>| host_node_of(f, node, with_key(rows, of_node(), node)),
    )
}

fn valued_top<F: Fn(Op) -> Number>(rows: &Vec<&SampledMetric>, name: &str, compute: &F) -> (r:
    Option<Number>)
    requires
        is_arithmetic(*compute),
    ensures
        r == top_value(arithmetic(*compute), ref_views(rows@), name@),
{
    let ghost all = ref_views(rows@);
    let mut values: Vec<Number> = Vec::new();
    let mut i: usize = 0;
    proof {
        reveal(Seq::filter);
        assert(all.take(0) == Seq::<SampledView>::empty());
        assert(values@ == all.take(0).filter(is_valued(name@)).map_values(value_of()));
    }
    while i < rows.len()
        invariant
            i <= rows@.len(),
            all == ref_views(rows@),
            values@ == all.take(i as int).filter(is_valued(name@)).map_values(value_of()),
        decreases rows.len() - i,
    {
        let row = rows[i];
        proof {
            reveal(Seq::filter);
            assert(all.take(i + 1).drop_last() == all.take(i as int));
            assert(all.take(i + 1).last() == row@);
        }
        if same(row.metric.as_str(), name) {
            if let Some(value) = row.value {
                let ghost kept = all.take(i as int).filter(is_valued(name@));
                values.push(value);
                assert(kept.push(row@).map_values(value_of()) == kept.map_values(value_of()).push(
                    value,
                ));
            }
        }
        i += 1;
    }
    assert(all.take(i as int) == all);
    round_some(maximum(values.as_slice()), 2, compute)
}

fn peaked_top<F: Fn(Op) -> Number>(rows: &Vec<&SampledMetric>, name: &str, compute: &F) -> (r:
    Option<Number>)
    requires
        is_arithmetic(*compute),
    ensures
        r == top_peak(arithmetic(*compute), ref_views(rows@), name@),
{
    let ghost all = ref_views(rows@);
    let mut values: Vec<Number> = Vec::new();
    let mut i: usize = 0;
    proof {
        reveal(Seq::filter);
        assert(all.take(0) == Seq::<SampledView>::empty());
        assert(values@ == all.take(0).filter(is_named(name@)).map_values(peak_of()));
    }
    while i < rows.len()
        invariant
            i <= rows@.len(),
            all == ref_views(rows@),
            values@ == all.take(i as int).filter(is_named(name@)).map_values(peak_of()),
        decreases rows.len() - i,
    {
        let row = rows[i];
        proof {
            reveal(Seq::filter);
            assert(all.take(i + 1).drop_last() == all.take(i as int));
            assert(all.take(i + 1).last() == row@);
        }
        if same(row.metric.as_str(), name) {
            let ghost kept = all.take(i as int).filter(is_named(name@));
            values.push(row.peak);
            assert(kept.push(row@).map_values(peak_of()) == kept.map_values(peak_of()).push(
                row.peak,
            ));
        }
        i += 1;
    }
    assert(all.take(i as int) == all);
    round_some(maximum(values.as_slice()), 2, compute)
}

fn first_some(a: Option<Number>, b: Option<Number>) -> (r: Option<Number>)
    ensures
        r == or_else(a, b),
{
    if a.is_some() {
        a
    } else {
        b
    }
}

fn pressure_from<F: Fn(Op) -> Number>(rows: &Vec<&SampledMetric>, compute: &F) -> (r: Option<
    BriefPressure,
>)
    requires
        is_arithmetic(*compute),
    ensures
        match r {
            Some(p) => pressure_of(arithmetic(*compute), ref_views(rows@)) == Some(
                (p.resource@, p.peak_percent),
            ),
            None => pressure_of(arithmetic(*compute), ref_views(rows@)) is None,
        },
{
    let ghost all = ref_views(rows@);
    let prefix = chars_of("host.psi_");
    let suffix = chars_of("_some_percent");
    let mut best: Option<&SampledMetric> = None;
    let mut i: usize = 0;
    proof {
        reveal(Seq::filter);
        assert(all.take(0) == Seq::<SampledView>::empty());
    }
    while i < rows.len()
        invariant
            i <= rows@.len(),
            all == ref_views(rows@),
            prefix@ == "host.psi_"@,
            suffix@ == "_some_percent"@,
            best is None <==> all.take(i as int).filter(is_pressure()).len() == 0,
            best matches Some(row) ==> row@ == highest(all.take(i as int).filter(is_pressure())),
        decreases rows.len() - i,
    {
        let row = rows[i];
        let ghost kept = all.take(i as int).filter(is_pressure());
        proof {
            reveal(Seq::filter);
            assert(all.take(i + 1).drop_last() == all.take(i as int));
            assert(all.take(i + 1).last() == row@);
            assert(kept.push(row@).drop_last() == kept);
        }
        let name = chars_of(row.metric.as_str());
        if starts_with(name.as_slice(), prefix.as_slice()) && ends_with(
            name.as_slice(),
            suffix.as_slice(),
        ) {
            best = match best {
                None => Some(row),
                Some(before) => match row.peak.rank(&before.peak) {
                    Rank::Before => Some(before),
                    _ => Some(row),
                },
            };
        }
        i += 1;
    }
    assert(all.take(i as int) == all);
    match best {
        None => None,
        Some(row) => {
            let name = chars_of(row.metric.as_str());
            let rest = stripped_starts(name.as_slice(), prefix.as_slice());
            let resource = stripped_ends(rest.as_slice(), suffix.as_slice());
            Some(
                BriefPressure {
                    resource: string_of(resource.as_slice()),
                    peak_percent: apply(compute, Op::Round(row.peak, 2)),
                },
            )
        },
    }
}

fn services_from<F: Fn(Op) -> Number>(rows: &Vec<&SampledMetric>, compute: &F) -> (r: Vec<
    BriefService,
>)
    requires
        is_arithmetic(*compute),
    ensures
        service_views(r@) == services_of(arithmetic(*compute), ref_views(rows@)),
{
    let ghost f = arithmetic(*compute);
    let ghost all = ref_views(rows@);
    let ghost name = is_named("service.cpu_cores"@);
    let ghost view = |s: BriefService| (s.service@, s.cpu_cores_peak);
    let ghost through = |s: BriefService| by_cores()(view(s));
    let mut found: Vec<BriefService> = Vec::new();
    let mut ranks: Vec<Reverse<Number>> = Vec::new();
    let mut i: usize = 0;
    proof {
        reveal(Seq::filter);
        assert(all.take(0) == Seq::<SampledView>::empty());
        assert(found@.map_values(view) == all.take(0).filter(name).map_values(service_of(f)));
    }
    while i < rows.len()
        invariant
            is_arithmetic(*compute),
            f == arithmetic(*compute),
            i <= rows@.len(),
            all == ref_views(rows@),
            name == is_named("service.cpu_cores"@),
            view == (|s: BriefService| (s.service@, s.cpu_cores_peak)),
            through == (|s: BriefService| by_cores()(view(s))),
            found@.map_values(view) == all.take(i as int).filter(name).map_values(service_of(f)),
            models(ranks@) == found@.map_values(through),
        decreases rows.len() - i,
    {
        let row = rows[i];
        proof {
            reveal(Seq::filter);
            assert(all.take(i + 1).drop_last() == all.take(i as int));
            assert(all.take(i + 1).last() == row@);
        }
        if same(row.metric.as_str(), "service.cpu_cores") {
            let ghost kept = all.take(i as int).filter(name);
            let ghost was = found@;
            let ghost was_ranks = ranks@;
            let service = BriefService {
                service: row.target.clone(),
                cpu_cores_peak: apply(compute, Op::Round(row.peak, 3)),
            };
            ranks.push(Reverse { key: service.cpu_cores_peak });
            found.push(service);
            proof {
                assert(found@.map_values(view) == was.map_values(view).push(service_of(f)(row@)));
                assert(kept.push(row@).map_values(service_of(f)) == kept.map_values(
                    service_of(f),
                ).push(service_of(f)(row@)));
                assert(models(ranks@) == models(was_ranks).push(through(service)));
                assert(found@.map_values(through) == was.map_values(through).push(
                    through(service),
                ));
            }
        }
        i += 1;
    }
    assert(all.take(i as int) == all);
    proof {
        stable_sorted_through::<BriefService, (Seq<char>, Number), Reverse<Number>>(
            found@,
            view,
            by_cores(),
        );
    }
    let mut sorted = sort_by_keys(found, &ranks, Ghost(through));
    let ghost before = sorted@;
    sorted.truncate(3);
    proof {
        let m = if before.len() <= 3 {
            before.len() as int
        } else {
            3
        };
        assert(sorted@ == before.take(m));
        assert(before.take(m).map_values(view) == before.map_values(view).take(m));
        assert(service_views(sorted@) == sorted@.map_values(view));
    }
    sorted
}

/// Folds what is known of the nodes into one row for each.
pub fn host_nodes<F: Fn(Op) -> Number>(rows: &[SampledMetric], compute: &F) -> (r: Vec<
    BriefHostNode,
>)
    requires
        is_arithmetic(*compute),
    ensures
        r@.map_values(|h: BriefHostNode| h@) == host_nodes_of(
            arithmetic(*compute),
            value_views(rows@),
        ),
{
    let ghost f = arithmetic(*compute);
    let groups = grouped_by_node(rows);
    let ghost names = distinct_sorted::<String>(value_views(rows@).map_values(of_node()));
    let ghost each = |node: Seq<char>| host_node_of(f, node, with_key(value_views(rows@), of_node(), node));
    let ghost shown = |h: BriefHostNode| h@;
    let mut out: Vec<BriefHostNode> = Vec::new();
    let mut g: usize = 0;
    while g < groups.len()
        invariant
            is_arithmetic(*compute),
            f == arithmetic(*compute),
            g <= groups@.len(),
            groups@.len() == names.len(),
            forall|h: int|
                0 <= h < groups@.len() ==> ref_views((#[trigger] groups@[h])@) == with_key(
                    value_views(rows@),
                    of_node(),
                    names[h],
                ) && groups@[h]@.len() > 0 && groups@[h]@[0].node@ == names[h],
            each == (|node: Seq<char>|
                host_node_of(f, node, with_key(value_views(rows@), of_node(), node))),
            shown == (|h: BriefHostNode| h@),
            out@.map_values(shown) == names.take(g as int).map_values(each),
        decreases groups.len() - g,
    {
        let members = &groups[g];
        assert(ref_views(members@).len() == members@.len());
        let row = BriefHostNode {
            node: members[0].node.clone(),
            cpu_busy_percent: first_some(
                valued_top(members, "host.cpu_busy_percent", compute),
                valued_top(members, "host.cpu_percent", compute),
            ),
            cpu_busy_peak_percent: first_some(
                peaked_top(members, "host.cpu_busy_percent", compute),
                peaked_top(members, "host.cpu_percent", compute),
            ),
            busiest_core_peak_percent: first_some(
                peaked_top(members, "host.core_busy_max_percent", compute),
                peaked_top(members, "host.core_busy_percent", compute),
            ),
            iowait_percent: valued_top(members, "host.cpu_iowait_percent", compute),
            steal_percent: valued_top(members, "host.cpu_steal_percent", compute),
            pressure: pressure_from(members, compute),
            load1_peak: peaked_top(members, "host.load1", compute),
            memory_used_peak_bytes: peaked_top(members, "host.memory_used_bytes", compute),
            disk_util_peak_percent: peaked_top(members, "host.disk_util_percent", compute),
            top_services: services_from(members, compute),
            detail_rows: members.len(),
        };
        assert(row@ == each(names[g as int]));
        let ghost was = out@;
        out.push(row);
        assert(out@.map_values(shown) == was.map_values(shown).push(row@));
        assert(names.take(g + 1).map_values(each) == names.take(g as int).map_values(each).push(
            each(names[g as int]),
        ));
        g += 1;
    }
    assert(names.take(g as int) == names);
    out
}

/// Every node that was sampled has exactly one row.
pub proof fn every_node_has_one_row(f: spec_fn(Op) -> Number, rows: Seq<SampledView>, i: int)
    requires
        0 <= i < rows.len(),
    ensures
        exists|g: int|
            0 <= g < host_nodes_of(f, rows).len() && (#[trigger] host_nodes_of(f, rows)[g]).node
                == rows[i].node,
        forall|g: int, h: int|
            0 <= g < h < host_nodes_of(f, rows).len() ==> (#[trigger] host_nodes_of(f, rows)[g]).node
                != (#[trigger] host_nodes_of(f, rows)[h]).node,
{
    let keys = rows.map_values(of_node());
    let names = distinct_sorted::<String>(keys);
    let all = host_nodes_of(f, rows);
    crate::order::distinct_sorted_holds::<String>(keys);
    crate::order::key_before_is_strict::<String>();
    assert(keys[i] == rows[i].node);
    assert(keys.contains(rows[i].node));
    assert(names.contains(rows[i].node));
    let g = choose|g: int| 0 <= g < names.len() && names[g] == rows[i].node;
    assert(all[g].node == rows[i].node);
    let before = crate::order::key_before::<String>();
    assert forall|g: int, h: int| 0 <= g < h < all.len() implies (#[trigger] all[g]).node != (
    #[trigger] all[h]).node by {
        assert(before(names[g], names[h]));
    }
}

/// The part of the benchmark over which the nodes and the connections are summarized: the load where
/// the end of the initialization is known, and all of it otherwise.
pub open spec fn hosts_window_of(run: RunManifest) -> Window {
    if run.benchmark.initialize_finished_at is Some {
        Window::Load
    } else {
        Window::Whole
    }
}

pub fn hosts_window(run: &RunManifest) -> (r: Window)
    ensures
        r == hosts_window_of(*run),
{
    if run.benchmark.initialize_finished_at.is_some() {
        Window::Load
    } else {
        Window::Whole
    }
}

/// How long that part was, in seconds, where it was longer than nothing.
pub open spec fn window_seconds_of(f: spec_fn(Op) -> Number, run: RunManifest) -> Option<Number> {
    let start = if run.benchmark.initialize_finished_at is Some {
        run.benchmark.initialize_finished_at
    } else {
        run.benchmark.started_at
    };
    match (start, run.benchmark.finished_at) {
        (Some(a), Some(b)) => {
            let micros = elapsed_micros(a.nanos as int, b.nanos as int);
            if micros > 0 {
                Some(f(Op::Divide(f(Op::Integer(micros)), f(Op::Integer(1_000_000)))))
            } else {
                None
            }
        },
        _ => None,
    }
}

/// The times of a run lie in the calendar.
pub open spec fn is_dated(run: RunManifest) -> bool {
    &&& run.started_at.valid()
    &&& on_calendar(run.finished_at)
    &&& on_calendar(run.benchmark.started_at)
    &&& on_calendar(run.benchmark.finished_at)
    &&& on_calendar(run.benchmark.initialize_finished_at)
}

pub fn window_seconds<F: Fn(Op) -> Number>(run: &RunManifest, compute: &F) -> (r: Option<Number>)
    requires
        is_arithmetic(*compute),
        is_dated(*run),
    ensures
        r == window_seconds_of(arithmetic(*compute), *run),
{
    let start = match run.benchmark.initialize_finished_at {
        Some(at) => Some(at),
        None => run.benchmark.started_at,
    };
    match (start, run.benchmark.finished_at) {
        (Some(a), Some(b)) => {
            let micros = elapsed(a, b);
            if micros > 0 {
                let whole = apply(compute, Op::Integer(micros));
                let unit = apply(compute, Op::Integer(1_000_000));
                Some(apply(compute, Op::Divide(whole, unit)))
            } else {
                None
            }
        },
        _ => None,
    }
}

#[derive(Debug)]
pub struct BriefRun {
    pub id: String,
    /// The form that `run` prints, and that is accepted everywhere a run is named.
    pub short_id: String,
    pub started_at: String,
    pub finished_at: Option<String>,
    pub state: String,
    pub score: Option<i64>,
    pub passed: Option<bool>,
    pub hypothesis: String,
    pub analysis_status: String,
    pub commit_hash: Option<String>,
    pub dirty: bool,
    /// Lines for the organizers that were dropped before anything was saved.
    pub operator_lines_dropped: usize,
    pub metric_count: usize,
}

/// `r` names a run and says how it went.
pub open spec fn names_run(run: RunManifest, r: BriefRun) -> bool {
    &&& r.id@ == run.id@
    &&& r.short_id@ == short_of(run.id@)
    &&& r.started_at@ == rfc3339(run.started_at.nanos as int)
    &&& text_option(r.finished_at) == time_text(run.finished_at)
    &&& r.state@ == run.state.name()
    &&& r.score == run.benchmark.score
    &&& r.passed == run.benchmark.passed
    &&& r.hypothesis@ == run.hypothesis@
    &&& r.analysis_status@ == run.analysis_status.name()
    &&& text_option(r.commit_hash) == text_option(run.source.commit_hash)
    &&& r.dirty == run.source.dirty
    &&& r.operator_lines_dropped == run.benchmark.operator_lines_dropped
    &&& r.metric_count == run.metric_count
}

fn name_run(run: &RunManifest) -> (r: BriefRun)
    requires
        is_dated(*run),
        has_short_id(run.id@),
    ensures
        names_run(*run, r),
{
    BriefRun {
        id: run.id.clone(),
        short_id: short_id(run.id.as_str()),
        started_at: to_rfc3339(run.started_at),
        finished_at: optional_rfc3339(run.finished_at),
        state: run.state.as_str().to_owned(),
        score: run.benchmark.score,
        passed: run.benchmark.passed,
        hypothesis: run.hypothesis.clone(),
        analysis_status: run.analysis_status.as_str().to_owned(),
        commit_hash: match &run.source.commit_hash {
            Some(hash) => Some(hash.clone()),
            None => None,
        },
        dirty: run.source.dirty,
        operator_lines_dropped: run.benchmark.operator_lines_dropped,
        metric_count: run.metric_count,
    }
}

/// What is known of a run.
#[derive(Debug)]
pub struct BriefInput {
    pub run: RunManifest,
    pub coverage: Vec<CoverageSummary>,
    pub http: Vec<HttpRouteSummary>,
    pub database: Vec<DatabaseSummary>,
    pub cpu: Vec<CpuSummary>,
    /// All metrics of the run.
    pub metrics: Vec<Metric>,
    pub transitions: Vec<Transition>,
    pub artifacts: Vec<ProfileArtifact>,
}

#[derive(Debug)]
pub struct BriefOutput {
    pub schema_version: u32,
    pub review: Option<RunReview>,
    pub run: BriefRun,
    pub coverage_issues: BriefSection<CoverageIssueGroup>,
    pub coverage_info_count: usize,
    pub benchmark: BriefSection<MetricQueryRow>,
    /// Values read from the system under test to work out what the score is made of.
    pub score_inputs: BriefSection<MetricQueryRow>,
    /// Lines of the benchmark that its parsers kept: why it failed and what the errors were.
    pub benchmark_messages: BriefBenchmarkMessages,
    pub http: BriefSection<HttpRouteSummary>,
    /// The part of the benchmark that the statements are from, where they are parted.
    pub database_window: Option<String>,
    pub database: BriefSection<DatabaseSummary>,
    pub omitted_alternative_database_rows: usize,
    pub cpu: BriefSection<CpuSummary>,
    pub hosts_window: &'static str,
    /// One row for each node.
    pub hosts: Vec<BriefHostNode>,
    /// How the benchmark used its connections, one row for each node.
    pub clients: Vec<BriefClientNode>,
    /// One row for each backend, where the access log names them.
    pub upstreams: BriefSection<UpstreamSummary>,
    pub transitions: BriefSection<Transition>,
    pub artifact_issues: BriefSection<ProfileArtifact>,
    pub unavailable_artifact_count: usize,
    pub warnings: Vec<String>,
}

/// A section shows the first of some rows, and says how many there are.
pub open spec fn shows<V>(
    all: Seq<V>,
    limit: usize,
    total_count: usize,
    truncated: bool,
    items: Seq<V>,
) -> bool {
    &&& total_count == all.len()
    &&& truncated == (all.len() > limit)
    &&& shortened(all, limit as int, items)
}

proof fn shows_through<T, V>(all: Seq<T>, limit: usize, s: BriefSection<T>, view: spec_fn(T) -> V)
    requires
        briefed(all, limit, s),
    ensures
        shows(
            all.map_values(view),
            limit,
            s.total_count,
            s.truncated,
            s.items@.map_values(view),
        ),
{
    let n = if all.len() <= limit {
        all.len() as int
    } else {
        limit as int
    };
    assert(all.take(n).map_values(view) == all.map_values(view).take(n));
}

pub open spec fn has_status(status: Seq<char>) -> spec_fn(ProfileArtifact) -> bool {
    |a: ProfileArtifact| a.status@ == status
}

fn with_status(artifacts: Vec<ProfileArtifact>, status: &str) -> (r: Vec<ProfileArtifact>)
    ensures
        r@ == artifacts@.filter(has_status(status@)),
{
    let ghost all = artifacts@;
    let ghost p = has_status(status@);
    let mut out: Vec<ProfileArtifact> = Vec::new();
    proof {
        reveal(Seq::filter);
        assert(all.take(0) == Seq::<ProfileArtifact>::empty());
    }
    for artifact in it: artifacts
        invariant
            it.seq() == all,
            p == has_status(status@),
            out@ == all.take(it.index() as int).filter(p),
    {
        proof {
            reveal(Seq::filter);
            let n = it.index() as int;
            assert(all.take(n + 1).drop_last() == all.take(n));
            assert(all.take(n + 1).last() == artifact);
        }
        if same(artifact.status.as_str(), status) {
            out.push(artifact);
        }
    }
    assert(all.take(all.len() as int) == all);
    out
}

fn count_status(artifacts: &Vec<ProfileArtifact>, status: &str) -> (r: usize)
    ensures
        r == artifacts@.filter(has_status(status@)).len(),
{
    let ghost p = has_status(status@);
    let mut count: usize = 0;
    let mut i: usize = 0;
    proof {
        reveal(Seq::filter);
        assert(artifacts@.take(0) == Seq::<ProfileArtifact>::empty());
    }
    while i < artifacts.len()
        invariant
            i <= artifacts@.len(),
            count <= i,
            p == has_status(status@),
            count == artifacts@.take(i as int).filter(p).len(),
        decreases artifacts.len() - i,
    {
        proof {
            reveal(Seq::filter);
            assert(artifacts@.take(i + 1).drop_last() == artifacts@.take(i as int));
            assert(artifacts@.take(i + 1).last() == artifacts@[i as int]);
        }
        if same(artifacts[i].status.as_str(), status) {
            count += 1;
        }
        i += 1;
    }
    assert(artifacts@.take(i as int) == artifacts@);
    count
}

fn round_queries<F: Fn(Op) -> Number>(rows: Vec<DatabaseSummary>, compute: &F) -> (r: Vec<
    DatabaseSummary,
>)
    requires
        is_arithmetic(*compute),
    ensures
        query_views(r@) == query_views(rows@).map_values(
            |q: QueryView| rounded_query(arithmetic(*compute), q),
        ),
{
    let ghost f = arithmetic(*compute);
    let ghost all = rows@;
    let ghost views = query_views(all);
    let ghost finish = |q: QueryView| rounded_query(f, q);
    let mut out: Vec<DatabaseSummary> = Vec::new();
    for row in it: rows
        invariant
            is_arithmetic(*compute),
            f == arithmetic(*compute),
            it.seq() == all,
            views == query_views(all),
            finish == (|q: QueryView| rounded_query(f, q)),
            query_views(out@) == views.take(it.index() as int).map_values(finish),
    {
        let mut row = row;
        let ghost n = it.index() as int;
        assert(views[n] == row@);
        round_database_summary(&mut row, compute);
        let ghost was = out@;
        out.push(row);
        assert(query_views(out@) == query_views(was).push(row@));
        assert(views.take(n + 1).map_values(finish) == views.take(n).map_values(finish).push(
            finish(views[n]),
        ));
    }
    assert(views.take(views.len() as int) == views);
    out
}

/// `b` says of the requests and the statements what `input` knows.
pub open spec fn tells_work(
    f: spec_fn(Op) -> Number,
    input: BriefInput,
    limit: usize,
    b: BriefOutput,
) -> bool {
    let queries = query_views(input.database@);
    let shown = shown_queries(queries, input.run);
    &&& shows(
        route_views(input.http@).map_values(rounded_route(f)),
        limit,
        b.http.total_count,
        b.http.truncated,
        route_views(b.http.items@),
    )
    &&& text_option(b.database_window) == shown_window(queries, input.run)
    &&& shows(
        shown.map_values(|q: QueryView| rounded_query(f, q)),
        limit,
        b.database.total_count,
        b.database.truncated,
        query_views(b.database.items@),
    )
    &&& b.omitted_alternative_database_rows == queries.len() - shown.len()
    &&& briefed(input.cpu@, limit, b.cpu)
    &&& briefed(input.transitions@, limit, b.transitions)
}

/// `b` says of the nodes, the connections and the backends what `input` knows. The nodes and the
/// connections are summarized over the window that `b` names, and over nothing else.
pub open spec fn tells_nodes(
    f: spec_fn(Op) -> Number,
    input: BriefInput,
    limit: usize,
    b: BriefOutput,
) -> bool {
    let window = hosts_window_of(input.run);
    let all = input.metrics@;
    &&& b.hosts_window@ == window.name()
    &&& b.hosts@.map_values(|h: BriefHostNode| h@) == host_nodes_of(
        f,
        summaries(f, all, input.run, window, Family::Hosts),
    )
    &&& b.clients@.map_values(|c: BriefClientNode| c@) == clients(
        f,
        window_seconds_of(f, input.run),
        summaries(f, all, input.run, window, Family::Clients),
    )
    &&& shows(
        upstreams_of(all),
        limit,
        b.upstreams.total_count,
        b.upstreams.truncated,
        upstream_views(b.upstreams.items@),
    )
}

/// `b` says what was not observed.
pub open spec fn tells_gaps(input: BriefInput, limit: usize, b: BriefOutput) -> bool {
    &&& shows(
        issues(coverage_views(input.coverage@)),
        limit,
        b.coverage_issues.total_count,
        b.coverage_issues.truncated,
        b.coverage_issues.items@.map_values(|g: CoverageIssueGroup| g@),
    )
    &&& b.coverage_info_count == coverage_views(input.coverage@).filter(is_info()).len()
    &&& briefed(input.artifacts@.filter(has_status("failed"@)), limit, b.artifact_issues)
    &&& b.unavailable_artifact_count == input.artifacts@.filter(has_status("unavailable"@)).len()
}

/// `b` says what the benchmark gave.
pub open spec fn tells_benchmark(
    input: BriefInput,
    benchmark: MetricQueryOutput,
    score_inputs: MetricQueryOutput,
    limit: usize,
    b: BriefOutput,
) -> bool {
    &&& shows(
        stable_sorted::<MetricRowView, MetricValueKey>(
            metric_row_views(benchmark.rows@),
            by_metric_then_value(),
        ),
        limit,
        b.benchmark.total_count,
        b.benchmark.truncated,
        metric_row_views(b.benchmark.items@),
    )
    &&& briefed(score_inputs.rows@, limit, b.score_inputs)
    &&& texts(b.benchmark_messages.failure@) == reasons(input.run)
    &&& sample_views(b.benchmark_messages.errors@) == by_category(
        messages_of_kind(all_messages(input.run.enrichments@), BenchmarkMessageKind::Error),
    )
    &&& b.benchmark_messages.omitted_count == omitted_total(input.run.enrichments@)
    &&& b.warnings == benchmark.warnings
}

/// `b` is the short account of a run.
pub open spec fn brief_of(
    f: spec_fn(Op) -> Number,
    input: BriefInput,
    benchmark: MetricQueryOutput,
    score_inputs: MetricQueryOutput,
    limit: usize,
    b: BriefOutput,
) -> bool {
    &&& b.schema_version == 1
    &&& b.review is None
    &&& names_run(input.run, b.run)
    &&& tells_work(f, input, limit, b)
    &&& tells_nodes(f, input, limit, b)
    &&& tells_gaps(input, limit, b)
    &&& tells_benchmark(input, benchmark, score_inputs, limit, b)
}

/// Makes the short account of a run.
pub fn build<F: Fn(Op) -> Number>(
    input: BriefInput,
    benchmark: MetricQueryOutput,
    score_inputs: MetricQueryOutput,
    limit: usize,
    compute: &F,
) -> (b: BriefOutput)
    requires
        is_arithmetic(*compute),
        is_dated(input.run),
        has_short_id(input.run.id@),
        omitted_total(input.run.enrichments@) <= usize::MAX,
    ensures
        brief_of(arithmetic(*compute), input, benchmark, score_inputs, limit, b),
{
    let ghost given = input;
    let run = name_run(&input.run);
    let messages = benchmark_messages(&input.run);
    let seconds = window_seconds(&input.run, compute);
    let window = hosts_window(&input.run);
    let (found, coverage_info_count) = coverage_issues(input.coverage);
    let ghost found_rows = found@;
    let issues_shown = section(found, limit);
    let routes = crate::query::round_routes(input.http, compute);
    let ghost route_rows = routes@;
    let http = section(routes, limit);
    let (kept, omitted, database_window) = preferred_database(input.database, &input.run);
    assert(query_views(kept@).len() == kept@.len());
    let queries = round_queries(kept, compute);
    let ghost query_rows = queries@;
    let database = section(queries, limit);
    let client = summarize_window(
        input.metrics.as_slice(),
        &input.run,
        window,
        Family::Clients,
        compute,
    );
    let host = summarize_window(
        input.metrics.as_slice(),
        &input.run,
        window,
        Family::Hosts,
        compute,
    );
    let clients_here = client_nodes(client.as_slice(), seconds, compute);
    let hosts = host_nodes(host.as_slice(), compute);
    let backends = upstreams(input.metrics.as_slice());
    let ghost backend_rows = backends@;
    let backends_shown = section(backends, limit);
    let unavailable_artifact_count = count_status(&input.artifacts, "unavailable");
    let artifact_issues = section(with_status(input.artifacts, "failed"), limit);
    let sorted = by_metric_then_magnitude(benchmark.rows);
    let ghost sorted_rows = sorted@;
    let benchmark_shown = section(sorted, limit);
    proof {
        shows_through(found_rows, limit, issues_shown, |g: CoverageIssueGroup| g@);
        shows_through(route_rows, limit, http, |r: HttpRouteSummary| r@);
        shows_through(query_rows, limit, database, |q: DatabaseSummary| q@);
        shows_through(sorted_rows, limit, benchmark_shown, |r: MetricQueryRow| r@);
        shows_through(backend_rows, limit, backends_shown, |r: UpstreamSummary| r@);
    }
    BriefOutput {
        schema_version: 1,
        review: None,
        run,
        coverage_issues: issues_shown,
        coverage_info_count,
        benchmark: benchmark_shown,
        score_inputs: section(score_inputs.rows, limit),
        benchmark_messages: messages,
        http,
        database_window,
        database,
        omitted_alternative_database_rows: omitted,
        cpu: section(input.cpu, limit),
        hosts_window: window.as_str(),
        hosts,
        clients: clients_here,
        upstreams: backends_shown,
        transitions: section(input.transitions, limit),
        artifact_issues,
        unavailable_artifact_count,
        warnings: benchmark.warnings,
    }
}

/// What is known of a run, with all its metrics.
pub open spec fn input_of(d: RunDiagnostics, metrics: Vec<Metric>) -> BriefInput {
    BriefInput {
        run: d.run,
        coverage: d.coverage,
        http: d.http,
        database: d.database,
        cpu: d.cpu,
        metrics,
        transitions: d.transitions,
        artifacts: d.artifacts,
    }
}

/// The query asks for all metrics of the run whose names begin with the prefix.
pub open spec fn asks_for(prefix: Seq<char>, o: MetricQueryOptions) -> bool {
    &&& o.scope == QueryScope::Run
    &&& o.window is None
    &&& o.metrics@.len() == 0
    &&& text_option(o.metric_prefix) == Some(prefix)
    &&& o.node is None
    &&& o.source is None
    &&& o.labels@.len() == 0
    &&& o.label_contains@.len() == 0
    &&& o.group_by@.len() == 0
    &&& o.limit == usize::MAX
}

/// `out` holds the metrics of the run whose names begin with the prefix.
pub open spec fn holds_all(
    f: spec_fn(Op) -> Number,
    run_id: Seq<char>,
    metrics: Seq<Metric>,
    prefix: Seq<char>,
    out: MetricQueryOutput,
) -> bool {
    exists|o: MetricQueryOptions| asks_for(prefix, o) && #[trigger] answers(f, run_id, metrics, o, out)
}

fn all_with<F: Fn(Op) -> Number>(
    run: &RunManifest,
    metrics: &[Metric],
    prefix: &str,
    compute: &F,
) -> (r: MetricQueryOutput)
    requires
        is_arithmetic(*compute),
    ensures
        holds_all(arithmetic(*compute), run.id@, metrics@, prefix@, r),
{
    let options = MetricQueryOptions {
        scope: QueryScope::Run,
        window: None,
        metrics: Vec::new(),
        metric_prefix: Some(prefix.to_owned()),
        node: None,
        source: None,
        labels: Vec::new(),
        label_contains: Vec::new(),
        group_by: Vec::new(),
        limit: usize::MAX,
    };
    assert(asks_for(prefix@, options));
    answer(run.id.clone(), metrics, options, compute)
}

/// Makes the short account of a run from what was found out about it. The benchmark's own values
/// are the metrics that begin with `benchmark.`, and those that the score is made of the ones that
/// begin with `score.`.
pub fn brief_run<F: Fn(Op) -> Number>(
    d: RunDiagnostics,
    metrics: Vec<Metric>,
    limit: usize,
    compute: &F,
) -> (b: BriefOutput)
    requires
        is_arithmetic(*compute),
        is_dated(d.run),
        has_short_id(d.run.id@),
        omitted_total(d.run.enrichments@) <= usize::MAX,
    ensures
        exists|benchmark: MetricQueryOutput, scores: MetricQueryOutput|
            holds_all(arithmetic(*compute), d.run.id@, metrics@, "benchmark."@, benchmark)
                && holds_all(arithmetic(*compute), d.run.id@, metrics@, "score."@, scores)
                && #[trigger] brief_of(
                arithmetic(*compute),
                input_of(d, metrics),
                benchmark,
                scores,
                limit,
                b,
            ),
{
    let benchmark = all_with(&d.run, metrics.as_slice(), "benchmark.", compute);
    let scores = all_with(&d.run, metrics.as_slice(), "score.", compute);
    let input = BriefInput {
        run: d.run,
        coverage: d.coverage,
        http: d.http,
        database: d.database,
        cpu: d.cpu,
        metrics,
        transitions: d.transitions,
        artifacts: d.artifacts,
    };
    build(input, benchmark, scores, limit, compute)
}

} // verus!
