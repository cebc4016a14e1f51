//! What is suspected of a run, what its coverage says, and what a brief tells of both.
use crate::alp_laws::either_part;
use crate::bottleneck::{
    added, by_endpoint, by_severity, by_statement, dominant, endpoint_suspect, endpoint_suspects,
    has_route, is_p95, is_query_metric, numbers, of_metric, present, ranked, resource_suspect,
    resource_suspects, scaled, statement_suspect, statement_suspects, symbol_suspect,
    symbol_suspects, SeverityKey, SuspectView, Triple, TripleModel,
};
use crate::brief::{
    by_cores, by_issue, by_urgency, host_node_of, host_nodes_of, is_issue, is_named, issue_of,
    issues, of_node, service_of, services_of, IssueKey, IssueKeyModel, IssueView, UrgencyKey,
};
use crate::coverage::{collector_row, coverage_rows, feeds, gave, section_rows, CoverageView};
use crate::join::{sorting_keeps_items, with_key};
use crate::labels::lookup;
use crate::model::{CollectorResult, Metric};
use crate::node_disk::{level_of, DiskLevel};
use crate::number::{total_from, Number, Op};
use crate::order::{distinct_sorted, distinct_sorted_holds, stable_sorted, Key, Reverse};
use crate::order_laws::{
    choices_agree, choosing_twice, keyed_items, sorting_ascends, sorting_counts_alike,
};
use crate::report_laws::label_of;
use crate::samples::SampledView;
use vstd::prelude::*;

verus! {

/// What is there is among what is present.
proof fn present_holds<U>(options: Seq<Option<U>>, i: int)
    requires
        0 <= i < options.len(),
        options[i] is Some,
    ensures
        present(options).contains(options[i]->0),
    decreases options.len(),
{
    let rest = present(options.drop_last());
    let all = present(options);
    if i < options.len() - 1 {
        present_holds(options.drop_last(), i);
        let j = choose|j: int| 0 <= j < rest.len() && rest[j] == options[i]->0;
        assert(all[j] == rest[j]);
    } else {
        assert(all[rest.len() as int] == options[i]->0);
    }
}

/// A finite number that is not less than zero.
pub open spec fn is_amount(n: Number) -> bool {
    n.is_finite_spec() && !n.is_negative_spec()
}

/// The metrics of an endpoint on its node.
pub open spec fn of_endpoint(m: Metric) -> spec_fn(Metric) -> bool {
    |x: Metric|
        {
            &&& lookup(x.labels@, "route"@) is Some
            &&& label_of(x, "node"@) == label_of(m, "node"@)
            &&& label_of(x, "method"@) == label_of(m, "method"@)
            &&& label_of(x, "route"@) == label_of(m, "route"@)
        }
}

/// The values of one name, added up from zero.
pub open spec fn sum_named(f: spec_fn(Op) -> Number, metrics: Seq<Metric>, name: Seq<char>) -> Number {
    total_from(
        f,
        Number { bits: 0 },
        metrics.filter(|m: Metric| m.name@ == name).map_values(|m: Metric| m.value),
    )
}

proof fn added_is_sum(f: spec_fn(Op) -> Number, metrics: Seq<Metric>, name: Seq<char>)
    ensures
        added(f, metrics, name) == sum_named(f, metrics, name),
{
    choices_agree(metrics, of_metric(name), |m: Metric| m.name@ == name);
    let found = metrics.filter(of_metric(name));
    assert(found.map_values(numbers()) == found.map_values(|m: Metric| m.value));
}

/// An endpoint with requests and a ninety-fifth percentile is suspected by the product of both.
pub proof fn endpoints_are_suspected_by_their_impact(
    f: spec_fn(Op) -> Number,
    w: spec_fn(Number, u32) -> Seq<char>,
    metrics: Seq<Metric>,
    i: int,
)
    requires
        0 <= i < metrics.len(),
        lookup(metrics[i].labels@, "route"@) is Some,
    ensures
        ({
            let m = metrics[i];
            let own = metrics.filter(of_endpoint(m));
            let all = endpoint_suspects(f, w, metrics);
            let requests = sum_named(f, own, "http.requests"@);
            let p95 = own.filter(
                |x: Metric|
                    x.name@ == "http.request_duration"@ && lookup(x.labels@, "quantile"@) == Some(
                        "0.95"@,
                    ),
            );
            p95.len() > 0 && requests.is_positive_spec() && is_amount(p95.last().value)
                ==> exists|g: int|
                {
                    &&& 0 <= g < all.len() && (#[trigger] all[g]).category == "http"@
                    &&& all[g].node == label_of(m, "node"@)
                    &&& all[g].target == label_of(m, "method"@) + " "@ + label_of(m, "route"@)
                    &&& all[g].severity == f(Op::Multiply(requests, p95.last().value))
                }
        }),
{
    let m = metrics[i];
    let chosen = metrics.filter(has_route());
    let key = by_endpoint();
    let keys = chosen.map_values(key);
    let names = distinct_sorted::<Triple>(keys);
    let k = key(m);
    metrics.lemma_filter_contains(has_route(), i);
    let n = choose|n: int| 0 <= n < chosen.len() && chosen[n] == m;
    assert(keys[n] == k);
    assert(keys.contains(k));
    distinct_sorted_holds::<Triple>(keys);
    assert(names.contains(k));
    let g = choose|g: int| 0 <= g < names.len() && names[g] == k;
    let members = with_key(chosen, key, k);
    let keyed = |x: Metric| key(x) == k;
    keyed_items(chosen, key, k, keyed);
    choosing_twice(metrics, has_route(), keyed, of_endpoint(m));
    assert(members == metrics.filter(of_endpoint(m)));
    let options = names.map_values(
        |k: TripleModel| endpoint_suspect(f, w, k, with_key(chosen, by_endpoint(), k)),
    );
    assert(options[g] == endpoint_suspect(f, w, k, members));
    added_is_sum(f, members, "http.requests"@);
    choices_agree(
        members,
        is_p95(),
        |x: Metric|
            x.name@ == "http.request_duration"@ && lookup(x.labels@, "quantile"@) == Some("0.95"@),
    );
    if options[g] is Some {
        present_holds(options, g);
        let all = endpoint_suspects(f, w, metrics);
        assert(all == present(options));
        let h = choose|h: int| 0 <= h < all.len() && all[h] == options[g]->0;
        assert(all[h].category == "http"@);
    }
}

/// The metrics that tell of the calls and the time of a statement on its node.
pub open spec fn of_one_statement(m: Metric) -> spec_fn(Metric) -> bool {
    |x: Metric|
        {
            &&& x.name@ == "db.query.calls"@ || x.name@ == "db.query.total_duration"@
            &&& lookup(x.labels@, "digest"@) is Some
            &&& label_of(x, "node"@) == label_of(m, "node"@)
            &&& label_of(x, "engine"@) == label_of(m, "engine"@)
            &&& label_of(x, "digest"@) == label_of(m, "digest"@)
        }
}

/// A statement that took time is suspected by all the time that it took.
pub proof fn statements_are_suspected_by_their_time(
    f: spec_fn(Op) -> Number,
    w: spec_fn(Number, u32) -> Seq<char>,
    metrics: Seq<Metric>,
    i: int,
)
    requires
        0 <= i < metrics.len(),
        lookup(metrics[i].labels@, "digest"@) is Some,
        metrics[i].name@ == "db.query.total_duration"@,
    ensures
        ({
            let m = metrics[i];
            let all = statement_suspects(f, w, metrics);
            let time = sum_named(f, metrics.filter(of_one_statement(m)), "db.query.total_duration"@);
            time.is_positive_spec() && is_amount(time) ==> exists|g: int|
                {
                    &&& 0 <= g < all.len() && (#[trigger] all[g]).category == "database"@
                    &&& all[g].node == label_of(m, "node"@)
                    &&& all[g].target == label_of(m, "engine"@) + " "@ + label_of(m, "digest"@)
                    &&& all[g].severity == time
                }
        }),
{
    let m = metrics[i];
    let chosen = metrics.filter(is_query_metric());
    let key = by_statement();
    let keys = chosen.map_values(key);
    let names = distinct_sorted::<Triple>(keys);
    let k = key(m);
    metrics.lemma_filter_contains(is_query_metric(), i);
    let n = choose|n: int| 0 <= n < chosen.len() && chosen[n] == m;
    assert(keys[n] == k);
    assert(keys.contains(k));
    distinct_sorted_holds::<Triple>(keys);
    assert(names.contains(k));
    let g = choose|g: int| 0 <= g < names.len() && names[g] == k;
    let members = with_key(chosen, key, k);
    let keyed = |x: Metric| key(x) == k;
    keyed_items(chosen, key, k, keyed);
    choosing_twice(metrics, is_query_metric(), keyed, of_one_statement(m));
    assert(members == metrics.filter(of_one_statement(m)));
    let options = names.map_values(
        |k: TripleModel| statement_suspect(f, w, k, with_key(chosen, by_statement(), k)),
    );
    assert(options[g] == statement_suspect(f, w, k, members));
    added_is_sum(f, members, "db.query.total_duration"@);
    if options[g] is Some {
        present_holds(options, g);
        let all = statement_suspects(f, w, metrics);
        assert(all == present(options));
        let h = choose|h: int| 0 <= h < all.len() && all[h] == options[g]->0;
        assert(all[h].category == "database"@);
    }
}

/// A symbol is suspected by its share of the samples, and a resource of a host by its use: that of
/// the processors and of a disk as a share of all, the wait for a disk as a share of twenty
/// milliseconds.
pub proof fn symbols_and_resources_are_suspected_by_their_use(
    f: spec_fn(Op) -> Number,
    w: spec_fn(Number, u32) -> Seq<char>,
    metrics: Seq<Metric>,
    i: int,
)
    requires
        0 <= i < metrics.len(),
    ensures
        ({
            let m = metrics[i];
            let symbols = symbol_suspects(w, metrics);
            let resources = resource_suspects(f, w, metrics);
            let use_of = |full: i64| f(Op::Divide(m.value, f(Op::Integer(full))));
            let full: i64 = if m.name@ == "host.disk_await"@ {
                20
            } else {
                100
            };
            &&& (m.name@ == "cpu.sample_percent"@ || m.name@ == "cpu.samples"@) && is_amount(
                m.value,
            ) && m.value.is_positive_spec() ==> exists|g: int|
                {
                    &&& 0 <= g < symbols.len() && (#[trigger] symbols[g]).severity == m.value
                    &&& symbols[g].category == "cpu"@ && symbols[g].node == label_of(m, "node"@)
                    &&& symbols[g].target == label_of(m, "binary"@) + " "@ + label_of(m, "symbol"@)
                }
            &&& (m.name@ == "host.cpu_percent"@ || m.name@ == "host.disk_util_percent"@ || m.name@
                == "host.disk_await"@) && is_amount(use_of(full)) && use_of(
                full,
            ).is_positive_spec() ==> exists|g: int|
                {
                    &&& 0 <= g < resources.len() && (#[trigger] resources[g]).severity == use_of(
                        full,
                    )
                    &&& resources[g].category == "host"@ && resources[g].node == label_of(
                        m,
                        "node"@,
                    )
                    &&& resources[g].verify_metric == m.name@
                }
        }),
{
    reveal_strlit("host.cpu_percent");
    reveal_strlit("host.disk_util_percent");
    reveal_strlit("host.disk_await");
    assert("host.cpu_percent"@.len() == 16 && "host.disk_util_percent"@.len() == 22
        && "host.disk_await"@.len() == 15);
    let m = metrics[i];
    let a = metrics.map_values(|m: Metric| symbol_suspect(w, m));
    let b = metrics.map_values(|m: Metric| resource_suspect(f, w, m));
    let symbols = symbol_suspects(w, metrics);
    let resources = resource_suspects(f, w, metrics);
    assert(a[i] == symbol_suspect(w, m));
    assert(b[i] == resource_suspect(f, w, m));
    if a[i] is Some {
        present_holds(a, i);
        assert(symbols == present(a));
        let g = choose|g: int| 0 <= g < symbols.len() && symbols[g] == a[i]->0;
        assert(symbols[g].severity == m.value);
    }
    if b[i] is Some {
        present_holds(b, i);
        assert(resources == present(b));
        let g = choose|g: int| 0 <= g < resources.len() && resources[g] == b[i]->0;
        assert(resources[g].severity == (b[i]->0).severity);
    }
}

proof fn dominant_is_not_exceeded(suspects: Seq<SuspectView>)
    ensures
        forall|i: int|
            0 <= i < suspects.len() ==> !(#[trigger] suspects[i]).severity.exceeds(
                dominant(suspects),
            ),
        !dominant(suspects).is_nan_spec(),
    decreases suspects.len(),
{
    if suspects.len() > 0 {
        let rest = suspects.drop_last();
        dominant_is_not_exceeded(rest);
        assert forall|i: int| 0 <= i < suspects.len() implies !(
        #[trigger] suspects[i]).severity.exceeds(dominant(suspects)) by {
            if i < rest.len() {
                assert(rest[i] == suspects[i]);
            }
        }
    }
}

/// Ranking keeps every suspicion of a category, measures each by the strongest of them, and puts the
/// stronger before the weaker.
pub proof fn the_strongest_suspicion_comes_first(
    f: spec_fn(Op) -> Number,
    suspects: Seq<SuspectView>,
    i: int,
)
    requires
        0 <= i < suspects.len(),
        suspects[i].severity.is_positive_spec(),
    ensures
        ({
            let list = ranked(f, suspects);
            let most = dominant(suspects);
            &&& list.len() == suspects.len()
            &&& forall|j: int|
                0 <= j < suspects.len() ==> !(#[trigger] suspects[j]).severity.exceeds(most)
            &&& exists|g: int|
                {
                    &&& 0 <= g < list.len() && (#[trigger] list[g]).target == suspects[i].target
                    &&& list[g].node == suspects[i].node
                    &&& list[g].severity == f(Op::Divide(suspects[i].severity, most))
                }
            &&& forall|a: int, b: int|
                0 <= a < b < list.len() ==> (#[trigger] list[b]).severity.place() <= (
                #[trigger] list[a]).severity.place()
        }),
{
    let list = ranked(f, suspects);
    let most = dominant(suspects);
    let made = suspects.map_values(scaled(f, most));
    dominant_is_not_exceeded(suspects);
    assert(!suspects[i].severity.exceeds(most));
    assert(most.is_positive_spec());
    sorting_keeps_items::<SuspectView, SuspectView, SeverityKey>(
        made,
        by_severity(),
        |s: SuspectView| s,
    );
    sorting_counts_alike::<SuspectView, SeverityKey>(made, by_severity(), |s: SuspectView| true);
    sorting_ascends::<SuspectView, SeverityKey>(made, by_severity());
    assert(made[i] == scaled(f, most)(suspects[i]));
    assert(made.contains(made[i]));
    assert(list.contains(made[i]));
    let g = choose|g: int| 0 <= g < list.len() && list[g] == made[i];
    assert(list[g].target == suspects[i].target);
    assert forall|a: int, b: int| 0 <= a < b < list.len() implies (
    #[trigger] list[b]).severity.place() <= (#[trigger] list[a]).severity.place() by {
        assert(!<SeverityKey as Key>::precedes(by_severity()(list[b]), by_severity()(list[a])));
    }
}

/// The section that a collector is there for.
pub open spec fn serves(name: Seq<char>, section: Seq<char>) -> bool {
    ||| section == "http"@ && (name == "alp"@ || name == "nginx-series"@ || name
        == "user-transition"@)
    ||| section == "database"@ && (name == "slp"@ || name == "mysql-log-delta"@ || name
        == "pg-stat-statements"@)
    ||| section == "cpu"@ && (name == "perf-report"@ || name == "perf-series"@)
    ||| section == "host"@ && (name == "host-sampler"@ || name == "sysstat"@)
    ||| section == "profiles"@ && (name == "perf-flamegraph"@ || name == "offcpu"@)
}

/// A metric that a collector has to give.
pub open spec fn is_due(name: Seq<char>, metric: Seq<char>) -> bool {
    ||| (metric == "http.requests"@ || metric == "http.request_duration"@) && (name == "alp"@
        || name == "nginx-series"@)
    ||| (metric == "db.query.calls"@ || metric == "db.query.total_duration"@) && (name == "slp"@
        || name == "mysql-log-delta"@ || name == "pg-stat-statements"@)
    ||| metric == "cpu.sample_percent"@ && (name == "perf-report"@ || name == "perf-series"@)
    ||| metric == "host.cpu_percent"@ && (name == "host-sampler"@ || name == "sysstat"@)
    ||| metric == "host.memory_used_bytes"@ && name == "host-sampler"@
}

/// A collector gave a metric on its node.
pub open spec fn was_given(metrics: Seq<Metric>, c: CollectorResult, metric: Seq<char>) -> bool {
    exists|m: int|
        {
            &&& 0 <= m < metrics.len() && (#[trigger] metrics[m]).name@ == metric
            &&& lookup(metrics[m].labels@, "collector"@) == Some(c.name@)
            &&& match c.node {
                Some(node) => lookup(metrics[m].labels@, "node"@) == Some(node@),
                None => lookup(metrics[m].labels@, "node"@) is None || lookup(
                    metrics[m].labels@,
                    "node"@,
                ) == Some("local"@),
            }
        }
}

proof fn given_is_given(metrics: Seq<Metric>, c: CollectorResult, metric: Seq<char>)
    ensures
        gave(metrics, c, metric) == was_given(metrics, c, metric),
{
    if gave(metrics, c, metric) {
        let m = choose|m: int|
            0 <= m < metrics.len() && (#[trigger] metrics[m]).name@ == metric
                && crate::coverage::given_by(metrics[m], c);
        assert(metrics[m].name@ == metric);
    }
    if was_given(metrics, c, metric) {
        let m = choose|m: int|
            0 <= m < metrics.len() && (#[trigger] metrics[m]).name@ == metric
                && crate::coverage::given_by(metrics[m], c);
        assert(metrics[m].name@ == metric);
    }
}

/// The names of the collectors differ.
proof fn collectors_differ()
    ensures
        forall|name: Seq<char>, a: Seq<char>, b: Seq<char>|
            #[trigger] serves(name, a) && #[trigger] serves(name, b) ==> a == b,
{
    reveal_strlit("alp");
    reveal_strlit("nginx-series");
    reveal_strlit("user-transition");
    reveal_strlit("slp");
    reveal_strlit("mysql-log-delta");
    reveal_strlit("pg-stat-statements");
    reveal_strlit("perf-report");
    reveal_strlit("perf-series");
    reveal_strlit("host-sampler");
    reveal_strlit("sysstat");
    reveal_strlit("perf-flamegraph");
    reveal_strlit("offcpu");
    assert("alp"@[0] == 'a' && "nginx-series"@[0] == 'n' && "user-transition"@[0] == 'u');
    assert("slp"@[0] == 's' && "slp"@.len() == 3 && "mysql-log-delta"@[0] == 'm'
        && "pg-stat-statements"@[1] == 'g');
    assert("perf-report"@[1] == 'e' && "perf-report"@[5] == 'r' && "perf-series"@[5] == 's'
        && "perf-series"@[1] == 'e' && "perf-flamegraph"@[5] == 'f' && "perf-flamegraph"@[1]
        == 'e');
    assert("perf-report"@[0] == 'p' && "perf-series"@[0] == 'p' && "perf-flamegraph"@[0] == 'p'
        && "pg-stat-statements"@[0] == 'p');
    assert("host-sampler"@[0] == 'h' && "sysstat"@[0] == 's' && "sysstat"@.len() == 7
        && "offcpu"@[0] == 'o');
}

/// Every collector of a section has a row there. The row lists what the collector has to give and did
/// not give on its node, and calls it complete only where it ended well and gave everything; what
/// failed or was unavailable is called so, and everything else is missing something.
pub proof fn collectors_are_judged_by_what_they_gave(
    collectors: Seq<CollectorResult>,
    metrics: Seq<Metric>,
    i: int,
    section: Seq<char>,
)
    requires
        0 <= i < collectors.len(),
        serves(collectors[i].name@, section),
    ensures
        ({
            let c = collectors[i];
            let rows = coverage_rows(collectors, metrics);
            exists|g: int|
                {
                    &&& 0 <= g < rows.len() && (#[trigger] rows[g]).section == section
                    &&& rows[g].collector == c.name@
                    &&& rows[g].node == match c.node {
                        Some(node) => node@,
                        None => "local"@,
                    }
                    &&& forall|metric: Seq<char>| #[trigger]
                        rows[g].missing_metrics.contains(metric) <==> is_due(c.name@, metric)
                            && !was_given(metrics, c, metric)
                    &&& rows[g].status == "complete"@ <==> c.status@ == "complete"@
                        && rows[g].missing_metrics.len() == 0
                    &&& c.status@ == "failed"@ ==> rows[g].status == "failed"@
                    &&& c.status@ == "unavailable"@ ==> rows[g].status == "unavailable"@
                }
        }),
{
    let c = collectors[i];
    let rows = coverage_rows(collectors, metrics);
    collectors_differ();
    assert(feeds(section)(c)) by {
        assert(serves(c.name@, "http"@) ==> section == "http"@);
        assert(serves(c.name@, "database"@) ==> section == "database"@);
        assert(serves(c.name@, "cpu"@) ==> section == "cpu"@);
        assert(serves(c.name@, "host"@) ==> section == "host"@);
        section_words_differ();
    }
    let own = collectors.filter(feeds(section));
    collectors.lemma_filter_contains(feeds(section), i);
    let n = choose|n: int| 0 <= n < own.len() && own[n] == c;
    let part = section_rows(section, collectors, metrics);
    let row = collector_row(section, c, metrics);
    assert(part[n] == row);
    assert(part.contains(row));
    let a = section_rows("http"@, collectors, metrics);
    let b = section_rows("database"@, collectors, metrics);
    let d = section_rows("cpu"@, collectors, metrics);
    let e = section_rows("host"@, collectors, metrics);
    let h = section_rows("profiles"@, collectors, metrics);
    either_part(a, b, row);
    either_part(a + b, d, row);
    either_part(a + b + d, e, row);
    either_part(a + b + d + e, h, row);
    assert(rows.contains(row));
    let g = choose|g: int| 0 <= g < rows.len() && rows[g] == row;
    assert(rows[g].section == section);
    due_metrics_are_expected(c.name@);
    assert forall|metric: Seq<char>| #[trigger]
        row.missing_metrics.contains(metric) <==> is_due(c.name@, metric) && !was_given(
            metrics,
            c,
            metric,
        ) by {
        given_is_given(metrics, c, metric);
        let expected = crate::coverage::collector_metrics(c.name@);
        let lacks = |name: Seq<char>| !gave(metrics, c, name);
        if row.missing_metrics.contains(metric) {
            assert(expected.filter(lacks).contains(metric));
            expected.lemma_filter_contains_rev(lacks, metric);
            assert(expected.contains(metric));
            let j = choose|j: int|
                0 <= j < row.missing_metrics.len() && row.missing_metrics[j] == metric;
            expected.lemma_filter_pred(lacks, j);
        }
        if is_due(c.name@, metric) && !gave(metrics, c, metric) {
            assert(expected.contains(metric));
            let j = choose|j: int| 0 <= j < expected.len() && expected[j] == metric;
            expected.lemma_filter_contains(lacks, j);
        }
    }
    status_words_differ();
}

proof fn section_words_differ()
    ensures
        "http"@ != "database"@,
        "http"@ != "cpu"@,
        "http"@ != "host"@,
        "http"@ != "profiles"@,
        "database"@ != "cpu"@,
        "database"@ != "host"@,
        "database"@ != "profiles"@,
        "cpu"@ != "host"@,
        "cpu"@ != "profiles"@,
        "host"@ != "profiles"@,
{
    reveal_strlit("http");
    reveal_strlit("database");
    reveal_strlit("cpu");
    reveal_strlit("host");
    reveal_strlit("profiles");
    assert("http"@[1] == 't' && "host"@[1] == 'o' && "database"@[1] == 'a' && "cpu"@[1] == 'p'
        && "profiles"@[1] == 'r');
}

proof fn status_words_differ()
    ensures
        "complete"@ != "unavailable"@,
        "complete"@ != "failed"@,
        "complete"@ != "missing"@,
        "unavailable"@ != "failed"@,
{
    reveal_strlit("complete");
    reveal_strlit("unavailable");
    reveal_strlit("failed");
    reveal_strlit("missing");
    assert("complete"@[0] == 'c' && "unavailable"@[0] == 'u' && "failed"@[0] == 'f'
        && "missing"@[0] == 'm');
}

proof fn due_metrics_are_expected(name: Seq<char>)
    requires
        exists|section: Seq<char>| #[trigger] serves(name, section),
    ensures
        forall|metric: Seq<char>| #[trigger]
            crate::coverage::collector_metrics(name).contains(metric) <==> is_due(name, metric),
{
    collectors_differ();
    section_words_differ();
    assert(serves(name, "http"@) ==> !serves(name, "database"@) && !serves(name, "cpu"@)
        && !serves(name, "host"@) && !serves(name, "profiles"@));
    assert(serves(name, "database"@) ==> !serves(name, "cpu"@) && !serves(name, "host"@)
        && !serves(name, "profiles"@));
    assert(serves(name, "cpu"@) ==> !serves(name, "host"@) && !serves(name, "profiles"@));
    assert(serves(name, "host"@) ==> !serves(name, "profiles"@));
    reveal_strlit("host-sampler");
    reveal_strlit("sysstat");
    reveal_strlit("alp");
    reveal_strlit("nginx-series");
    reveal_strlit("user-transition");
    assert("host-sampler"@[0] == 'h' && "sysstat"@[0] == 's');
    assert("alp"@[0] == 'a' && "nginx-series"@[0] == 'n' && "user-transition"@[0] == 'u');
    let list = crate::coverage::collector_metrics(name);
    assert forall|metric: Seq<char>| #[trigger] list.contains(metric) <==> is_due(name, metric) by {
        if is_due(name, metric) {
            if list.len() > 0 && list[0] == metric {
                assert(list.contains(metric));
            } else {
                assert(list[1] == metric);
            }
        }
    }
}

/// A node has too little space exactly where fewer whole mebibytes are free than it must have, and
/// little where fewer are free than it should have.
pub proof fn space_is_measured_against_both_thresholds(free: nat, least: nat, enough: nat)
    ensures
        level_of(free, least, enough) == DiskLevel::TooLow <==> free < least * 1_048_576,
        level_of(free, least, enough) == DiskLevel::Low <==> least * 1_048_576 <= free < enough
            * 1_048_576,
        level_of(free, least, enough) == DiskLevel::Enough <==> least * 1_048_576 <= free && enough
            * 1_048_576 <= free,
{
}

/// The services of a node in a brief are those that used the processors most: at most three, each with
/// the largest share that was sampled, to three places, the larger before the smaller; no service
/// that is left out used more than one that is shown.
pub proof fn the_busiest_services_are_shown(
    f: spec_fn(Op) -> Number,
    rows: Seq<SampledView>,
    g: int,
)
    requires
        0 <= g < host_nodes_of(f, rows).len(),
    ensures
        ({
            let h = host_nodes_of(f, rows)[g];
            let own = rows.filter(
                |r: SampledView| r.node == h.node && r.metric == "service.cpu_cores"@,
            );
            let shown = h.top_services;
            &&& shown.len() == if own.len() < 3 {
                own.len()
            } else {
                3
            }
            &&& forall|a: int|
                0 <= a < shown.len() ==> exists|i: int|
                    0 <= i < own.len() && #[trigger] shown[a] == (
                        (#[trigger] own[i]).target,
                        f(Op::Round(own[i].peak, 3)),
                    )
            &&& forall|a: int, b: int|
                0 <= a < b < shown.len() ==> (#[trigger] shown[b]).1.place() <= (
                #[trigger] shown[a]).1.place()
            &&& forall|i: int, a: int|
                0 <= i < own.len() && 0 <= a < shown.len() ==> shown.contains(
                    ((#[trigger] own[i]).target, f(Op::Round(own[i].peak, 3))),
                ) || f(Op::Round(own[i].peak, 3)).place() <= (#[trigger] shown[a]).1.place()
        }),
{
    let names = distinct_sorted::<String>(rows.map_values(of_node()));
    let node = names[g];
    let h = host_nodes_of(f, rows)[g];
    let members = with_key(rows, of_node(), node);
    assert(h == host_node_of(f, node, members));
    let on_node = |r: SampledView| r.node == h.node;
    keyed_items(rows, of_node(), node, on_node);
    let both = |r: SampledView| r.node == h.node && r.metric == "service.cpu_cores"@;
    choosing_twice(rows, on_node, is_named("service.cpu_cores"@), both);
    let own = rows.filter(both);
    assert(members.filter(is_named("service.cpu_cores"@)) == own);
    let made = own.map_values(service_of(f));
    let all = stable_sorted::<(Seq<char>, Number), Reverse<Number>>(made, by_cores());
    sorting_keeps_items::<(Seq<char>, Number), (Seq<char>, Number), Reverse<Number>>(
        made,
        by_cores(),
        |s: (Seq<char>, Number)| s,
    );
    sorting_counts_alike::<(Seq<char>, Number), Reverse<Number>>(
        made,
        by_cores(),
        |s: (Seq<char>, Number)| true,
    );
    sorting_ascends::<(Seq<char>, Number), Reverse<Number>>(made, by_cores());
    let shown = h.top_services;
    assert(shown == services_of(f, members));
    assert forall|a: int| 0 <= a < shown.len() implies exists|i: int|
        0 <= i < own.len() && #[trigger] shown[a] == (
            (#[trigger] own[i]).target,
            f(Op::Round(own[i].peak, 3)),
        ) by {
        assert(shown[a] == all[a]);
        assert(all.contains(all[a]));
        let i = choose|i: int| 0 <= i < made.len() && made[i] == all[a];
        assert(made[i] == (own[i].target, f(Op::Round(own[i].peak, 3))));
    }
    assert forall|a: int, b: int| 0 <= a < b < shown.len() implies (#[trigger] shown[b]).1.place()
        <= (#[trigger] shown[a]).1.place() by {
        assert(shown[a] == all[a] && shown[b] == all[b]);
        assert(!<Reverse<Number> as Key>::precedes(by_cores()(all[b]), by_cores()(all[a])));
    }
    assert forall|i: int, a: int| 0 <= i < own.len() && 0 <= a < shown.len() implies shown.contains(
        ((#[trigger] own[i]).target, f(Op::Round(own[i].peak, 3))),
    ) || f(Op::Round(own[i].peak, 3)).place() <= (#[trigger] shown[a]).1.place() by {
        assert(made[i] == (own[i].target, f(Op::Round(own[i].peak, 3))));
        assert(made.contains(made[i]));
        assert(all.contains(made[i]));
        let j = choose|j: int| 0 <= j < all.len() && all[j] == made[i];
        assert(shown[a] == all[a]);
        if j < shown.len() {
            assert(shown[j] == made[i]);
        } else {
            assert(!<Reverse<Number> as Key>::precedes(by_cores()(all[j]), by_cores()(all[a])));
        }
    }
}

/// What failed is critical, what is missing is a warning, and what is critical comes first.
pub proof fn failures_come_first(coverage: Seq<CoverageView>, i: int)
    requires
        0 <= i < issues(coverage).len(),
    ensures
        ({
            let all = issues(coverage);
            &&& all[i].severity == "critical"@ <==> all[i].status == "failed"@
            &&& all[i].severity == "critical"@ || all[i].severity == "warning"@
            &&& all[i].status == "failed"@ || all[i].status == "missing"@
            &&& forall|j: int|
                i < j < all.len() && all[i].severity == "warning"@ ==> (
                #[trigger] all[j]).severity == "warning"@
        }),
{
    let rows = coverage.filter(is_issue());
    let keys = rows.map_values(by_issue());
    let names = distinct_sorted::<IssueKey>(keys);
    let made = names.map_values(|k: IssueKeyModel| issue_of(k, with_key(rows, by_issue(), k)));
    let all = issues(coverage);
    reveal_strlit("critical");
    reveal_strlit("warning");
    assert("critical"@[0] == 'c' && "warning"@[0] == 'w');
    sorting_keeps_items::<IssueView, IssueView, UrgencyKey>(made, by_urgency(), |v: IssueView| v);
    sorting_ascends::<IssueView, UrgencyKey>(made, by_urgency());
    distinct_sorted_holds::<IssueKey>(keys);
    assert forall|j: int| 0 <= j < all.len() implies ({
        &&& (#[trigger] all[j]).severity == "critical"@ <==> all[j].status == "failed"@
        &&& all[j].severity == "critical"@ || all[j].severity == "warning"@
        &&& all[j].status == "failed"@ || all[j].status == "missing"@
    }) by {
        assert(all.contains(all[j]));
        let g = choose|g: int| 0 <= g < made.len() && made[g] == all[j];
        let k = names[g];
        assert(names.contains(k));
        let n = choose|n: int| 0 <= n < keys.len() && keys[n] == k;
        coverage.lemma_filter_pred(is_issue(), n);
        assert(rows[n].status == k.1.1.1.0);
    }
    assert forall|j: int| i < j < all.len() && all[i].severity == "warning"@ implies (
    #[trigger] all[j]).severity == "warning"@ by {
        assert(!<UrgencyKey as Key>::precedes(by_urgency()(all[j]), by_urgency()(all[i])));
    }
}

} // verus!
