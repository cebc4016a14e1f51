//! Suspicions about what limits a run, from every category that was observed.
use crate::join::{derefs, group_rows, keep, sort_by_keys, with_key, with_key_holds};
use crate::labels::lookup;
use crate::model::Metric;
use crate::number::{apply, arithmetic, is_arithmetic, sum_from, total_from, Number, Op};
use crate::numeral::{is_writer, write_number, written};
use crate::order::{distinct_sorted, models, stable_sorted, stable_sorted_through, Reverse};
use crate::report::{label, label_or_dash};
use crate::text::{append_str, chars_of, same, string_of};
use vstd::prelude::*;

verus! {

const DEFAULT_LIMIT: usize = 5;

/// One suspicion, with the evidence for it.
#[derive(Debug)]
pub struct Bottleneck {
    pub category: &'static str,
    pub node: String,
    pub target: String,
    pub evidence: String,
    pub source: &'static str,
    /// How much it stands out within its category; no physical unit.
    pub severity: Number,
    pub verify_metric: &'static str,
}

/// Whether a category was observed.
#[derive(Debug)]
pub struct Coverage {
    pub category: &'static str,
    pub available: bool,
}

#[derive(Debug)]
pub struct Report {
    pub candidates: Vec<Bottleneck>,
    pub coverage: Vec<Coverage>,
}

/// The mathematical value of a suspicion.
#[verifier::ext_equal]
pub struct SuspectView {
    pub category: Seq<char>,
    pub node: Seq<char>,
    pub target: Seq<char>,
    pub evidence: Seq<char>,
    pub source: Seq<char>,
    pub severity: Number,
    pub verify_metric: Seq<char>,
}

impl View for Bottleneck {
    type V = SuspectView;

    open spec fn view(&self) -> SuspectView {
        SuspectView {
            category: self.category@,
            node: self.node@,
            target: self.target@,
            evidence: self.evidence@,
            source: self.source@,
            severity: self.severity,
            verify_metric: self.verify_metric@,
        }
    }
}

pub open spec fn suspect_views(rows: Seq<Bottleneck>) -> Seq<SuspectView> {
    rows.map_values(|b: Bottleneck| b@)
}

/// A finite value that is not negative.
pub open spec fn usable(n: Number) -> bool {
    n.is_finite_spec() && !n.is_negative_spec()
}

fn valid(n: Number) -> (r: bool)
    ensures
        r == usable(n),
{
    n.is_finite() && !n.is_negative()
}

pub open spec fn of_metric(name: Seq<char>) -> spec_fn(Metric) -> bool {
    |m: Metric| m.name@ == name
}

pub open spec fn numbers() -> spec_fn(Metric) -> Number {
    |m: Metric| m.value
}

/// The values of the metric `name` added up from zero.
pub open spec fn added(f: spec_fn(Op) -> Number, metrics: Seq<Metric>, name: Seq<char>) -> Number {
    total_from(f, Number::zero_spec(), metrics.filter(of_metric(name)).map_values(numbers()))
}

pub open spec fn is_p95() -> spec_fn(Metric) -> bool {
    |m: Metric|
        m.name@ == "http.request_duration"@ && lookup(m.labels@, "quantile"@) == Some("0.95"@)
}

pub open spec fn last_value(metrics: Seq<Metric>) -> Option<Number> {
    if metrics.len() == 0 {
        None
    } else {
        Some(metrics.last().value)
    }
}

pub type TripleModel = (Seq<char>, (Seq<char>, Seq<char>));

pub type Triple = (String, (String, String));

pub open spec fn has_route() -> spec_fn(Metric) -> bool {
    |m: Metric| lookup(m.labels@, "route"@) is Some
}

pub open spec fn by_endpoint() -> spec_fn(Metric) -> TripleModel {
    |m: Metric|
        (
            label_or_dash(m, "node"@),
            (label_or_dash(m, "method"@), label_or_dash(m, "route"@)),
        )
}

/// The suspicion about one endpoint: its requests times its ninety-fifth percentile.
pub open spec fn endpoint_suspect(
    f: spec_fn(Op) -> Number,
    w: spec_fn(Number, u32) -> Seq<char>,
    k: TripleModel,
    metrics: Seq<Metric>,
) -> Option<SuspectView> {
    let requests = added(f, metrics, "http.requests"@);
    match last_value(metrics.filter(is_p95())) {
        Some(p95) => if requests.is_positive_spec() && usable(p95) {
            let impact = f(Op::Multiply(requests, p95));
            Some(
                SuspectView {
                    category: "http"@,
                    node: k.0,
                    target: k.1.0 + " "@ + k.1.1,
                    evidence: "requests="@ + w(requests, 0) + " p95="@ + w(p95, 2) + "ms impact="@
                        + w(impact, 2) + "ms"@,
                    source: "alp/access-log"@,
                    severity: impact,
                    verify_metric: "http.request_duration{quantile=0.95}"@,
                },
            )
        } else {
            None
        },
        None => None,
    }
}

pub open spec fn is_query_metric() -> spec_fn(Metric) -> bool {
    |m: Metric|
        (m.name@ == "db.query.calls"@ || m.name@ == "db.query.total_duration"@) && lookup(
            m.labels@,
            "digest"@,
        ) is Some
}

pub open spec fn by_statement() -> spec_fn(Metric) -> TripleModel {
    |m: Metric|
        (
            label_or_dash(m, "node"@),
            (label_or_dash(m, "engine"@), label_or_dash(m, "digest"@)),
        )
}

/// The suspicion about one statement: its total time.
pub open spec fn statement_suspect(
    f: spec_fn(Op) -> Number,
    w: spec_fn(Number, u32) -> Seq<char>,
    k: TripleModel,
    metrics: Seq<Metric>,
) -> Option<SuspectView> {
    let calls = added(f, metrics, "db.query.calls"@);
    let time = added(f, metrics, "db.query.total_duration"@);
    let mean = if calls.is_positive_spec() {
        f(Op::Divide(time, calls))
    } else {
        Number::zero_spec()
    };
    if usable(time) && time.is_positive_spec() {
        Some(
            SuspectView {
                category: "database"@,
                node: k.0,
                target: k.1.0 + " "@ + k.1.1,
                evidence: "total="@ + w(time, 2) + "ms calls="@ + w(calls, 0) + " mean="@ + w(
                    mean,
                    2,
                ) + "ms"@,
                source: "slp/pg_stat_statements"@,
                severity: time,
                verify_metric: "db.query.total_duration"@,
            },
        )
    } else {
        None
    }
}

/// The suspicion about one symbol: its share of the samples.
pub open spec fn symbol_suspect(
    w: spec_fn(Number, u32) -> Seq<char>,
    m: Metric,
) -> Option<SuspectView> {
    if (m.name@ == "cpu.sample_percent"@ || m.name@ == "cpu.samples"@) && usable(m.value)
        && m.value.is_positive_spec() {
        Some(
            SuspectView {
                category: "cpu"@,
                node: label_or_dash(m, "node"@),
                target: label_or_dash(m, "binary"@) + " "@ + label_or_dash(m, "symbol"@),
                evidence: "sample_share="@ + w(m.value, 2) + "%"@,
                source: "perf"@,
                severity: m.value,
                verify_metric: "cpu.sample_percent"@,
            },
        )
    } else {
        None
    }
}

/// What a host metric is about, and the value that counts as full use of it.
pub open spec fn host_scale(m: Metric) -> Option<(Seq<char>, Seq<char>, i64)> {
    if m.name@ == "host.cpu_percent"@ {
        Some(("cpu"@, "host.cpu_percent"@, 100))
    } else if m.name@ == "host.disk_util_percent"@ {
        Some(
            (
                "disk "@ + label_or_dash(m, "device"@) + " util"@,
                "host.disk_util_percent"@,
                100,
            ),
        )
    } else if m.name@ == "host.disk_await"@ {
        Some(("disk "@ + label_or_dash(m, "device"@) + " await"@, "host.disk_await"@, 20))
    } else {
        None
    }
}

/// The suspicion about one resource of a host: its use.
pub open spec fn resource_suspect(
    f: spec_fn(Op) -> Number,
    w: spec_fn(Number, u32) -> Seq<char>,
    m: Metric,
) -> Option<SuspectView> {
    match host_scale(m) {
        Some((target, verify, full)) => {
            let weight = f(Op::Divide(m.value, f(Op::Integer(full))));
            if usable(weight) && weight.is_positive_spec() {
                Some(
                    SuspectView {
                        category: "host"@,
                        node: label_or_dash(m, "node"@),
                        target,
                        evidence: m.name@ + "="@ + w(m.value, 2) + m.unit@,
                        source: "sysstat"@,
                        severity: weight,
                        verify_metric: verify,
                    },
                )
            } else {
                None
            }
        },
        None => None,
    }
}

/// The values that are there, in their order.
pub open spec fn present<U>(options: Seq<Option<U>>) -> Seq<U>
    decreases options.len(),
{
    if options.len() == 0 {
        Seq::empty()
    } else {
        match options.last() {
            Some(u) => present(options.drop_last()).push(u),
            None => present(options.drop_last()),
        }
    }
}

pub open spec fn endpoint_suspects(
    f: spec_fn(Op) -> Number,
    w: spec_fn(Number, u32) -> Seq<char>,
    metrics: Seq<Metric>,
) -> Seq<SuspectView> {
    let chosen = metrics.filter(has_route());
    present(
        distinct_sorted::<Triple>(chosen.map_values(by_endpoint())).map_values(
            |k: TripleModel| endpoint_suspect(f, w, k, with_key(chosen, by_endpoint(), k)),
        ),
    )
}

pub open spec fn statement_suspects(
    f: spec_fn(Op) -> Number,
    w: spec_fn(Number, u32) -> Seq<char>,
    metrics: Seq<Metric>,
) -> Seq<SuspectView> {
    let chosen = metrics.filter(is_query_metric());
    present(
        distinct_sorted::<Triple>(chosen.map_values(by_statement())).map_values(
            |k: TripleModel| statement_suspect(f, w, k, with_key(chosen, by_statement(), k)),
        ),
    )
}

pub open spec fn symbol_suspects(
    w: spec_fn(Number, u32) -> Seq<char>,
    metrics: Seq<Metric>,
) -> Seq<SuspectView> {
    present(metrics.map_values(|m: Metric| symbol_suspect(w, m)))
}

pub open spec fn resource_suspects(
    f: spec_fn(Op) -> Number,
    w: spec_fn(Number, u32) -> Seq<char>,
    metrics: Seq<Metric>,
) -> Seq<SuspectView> {
    present(metrics.map_values(|m: Metric| resource_suspect(f, w, m)))
}

/// The largest severity, or zero where none is larger.
pub open spec fn dominant(suspects: Seq<SuspectView>) -> Number
    decreases suspects.len(),
{
    if suspects.len() == 0 {
        Number::zero_spec()
    } else {
        Number::max_spec(dominant(suspects.drop_last()), suspects.last().severity)
    }
}

pub open spec fn scaled(f: spec_fn(Op) -> Number, most: Number) -> spec_fn(SuspectView) -> SuspectView {
    |s: SuspectView|
        if most.is_positive_spec() {
            SuspectView { severity: f(Op::Divide(s.severity, most)), ..s }
        } else {
            s
        }
}

/// Within a category, suspicions come by severity, the largest first, then by target.
pub open spec fn by_severity() -> spec_fn(SuspectView) -> (int, Seq<char>) {
    |s: SuspectView| (s.severity.place(), s.target)
}

pub type SeverityKey = (Reverse<Number>, String);

/// A category in order, with severities in proportion to its largest.
pub open spec fn ranked(f: spec_fn(Op) -> Number, suspects: Seq<SuspectView>) -> Seq<SuspectView> {
    stable_sorted::<SuspectView, SeverityKey>(
        suspects.map_values(scaled(f, dominant(suspects))),
        by_severity(),
    )
}

/// The first of a list, where it has any.
pub open spec fn head(list: Seq<SuspectView>) -> Seq<SuspectView> {
    if list.len() == 0 {
        Seq::empty()
    } else {
        seq![list[0]]
    }
}

pub open spec fn same_subject(a: SuspectView, b: SuspectView) -> bool {
    a.category == b.category && a.node == b.node && a.target == b.target
}

pub open spec fn not_named(heads: Seq<SuspectView>) -> spec_fn(SuspectView) -> bool {
    |s: SuspectView|
        forall|i: int| 0 <= i < heads.len() ==> !same_subject(#[trigger] heads[i], s)
}

/// Beyond the heads, suspicions come by severity, the largest first, then by category and target.
pub open spec fn by_severity_and_category() -> spec_fn(SuspectView) -> (
    int,
    (Seq<char>, Seq<char>),
) {
    |s: SuspectView| (s.severity.place(), (s.category, s.target))
}

pub type CrossKey = (Reverse<Number>, (String, String));

/// The strongest suspicion of each category, then the others, at most five in all.
pub open spec fn shortlist(
    http: Seq<SuspectView>,
    database: Seq<SuspectView>,
    cpu: Seq<SuspectView>,
    host: Seq<SuspectView>,
) -> Seq<SuspectView> {
    let heads = head(http) + head(database) + head(cpu) + head(host);
    // The categories in the order of their names.
    let all = cpu + database + host + http;
    let rest = stable_sorted::<SuspectView, CrossKey>(
        all.filter(not_named(heads)),
        by_severity_and_category(),
    );
    let list = heads + rest;
    list.take(if list.len() <= 5 {
        list.len() as int
    } else {
        5
    })
}

fn texted<S: Fn(Number, u32) -> String>(out: &mut Vec<char>, n: Number, decimals: u32, show: &S)
    requires
        is_writer(*show),
    ensures
        final(out)@ == old(out)@ + written(*show)(n, decimals),
{
    let text = write_number(show, n, decimals);
    append_str(out, text.as_str());
}

fn spaced(a: &str, b: &str) -> (r: String)
    ensures
        r@ == a@ + " "@ + b@,
{
    let mut out = chars_of(a);
    append_str(&mut out, " ");
    append_str(&mut out, b);
    string_of(out.as_slice())
}

fn total_named<F: Fn(Op) -> Number>(metrics: &Vec<&Metric>, name: &str, compute: &F) -> (r: Number)
    requires
        is_arithmetic(*compute),
    ensures
        r == added(arithmetic(*compute), derefs(metrics@), name@),
{
    let ghost all = derefs(metrics@);
    let mut values: Vec<Number> = Vec::new();
    let mut i: usize = 0;
    proof {
        reveal(Seq::filter);
        assert(all.take(0) == Seq::<Metric>::empty());
        assert(values@ == all.take(0).filter(of_metric(name@)).map_values(numbers()));
    }
    while i < metrics.len()
        invariant
            i <= metrics@.len(),
            all == derefs(metrics@),
            values@ == all.take(i as int).filter(of_metric(name@)).map_values(numbers()),
        decreases metrics.len() - i,
    {
        let m = metrics[i];
        proof {
            reveal(Seq::filter);
            assert(all.take(i + 1).drop_last() == all.take(i as int));
            assert(all.take(i + 1).last() == *m);
        }
        if same(m.name.as_str(), name) {
            let ghost kept = all.take(i as int).filter(of_metric(name@));
            values.push(m.value);
            assert(kept.push(*m).map_values(numbers()) == kept.map_values(numbers()).push(m.value));
        }
        i += 1;
    }
    assert(all.take(i as int) == all);
    sum_from(Number::zero(), values.as_slice(), compute)
}

fn last_p95(metrics: &Vec<&Metric>) -> (r: Option<Number>)
    ensures
        r == last_value(derefs(metrics@).filter(is_p95())),
{
    let ghost all = derefs(metrics@);
    let mut found: Option<Number> = None;
    let mut i: usize = 0;
    proof {
        reveal(Seq::filter);
        assert(all.take(0) == Seq::<Metric>::empty());
    }
    while i < metrics.len()
        invariant
            i <= metrics@.len(),
            all == derefs(metrics@),
            found == last_value(all.take(i as int).filter(is_p95())),
        decreases metrics.len() - i,
    {
        let m = metrics[i];
        proof {
            reveal(Seq::filter);
            assert(all.take(i + 1).drop_last() == all.take(i as int));
            assert(all.take(i + 1).last() == *m);
        }
        if same(m.name.as_str(), "http.request_duration") && m.labels.holds("quantile", "0.95") {
            found = Some(m.value);
        }
        i += 1;
    }
    assert(all.take(i as int) == all);
    found
}

fn endpoint_from<F: Fn(Op) -> Number, S: Fn(Number, u32) -> String>(
    metrics: &Vec<&Metric>,
    compute: &F,
    show: &S,
    Ghost(k): Ghost<TripleModel>,
) -> (r: Option<Bottleneck>)
    requires
        is_arithmetic(*compute),
        is_writer(*show),
        metrics@.len() > 0,
        forall|i: int| 0 <= i < metrics@.len() ==> by_endpoint()(*#[trigger] metrics@[i]) == k,
    ensures
        option_view(r) == endpoint_suspect(
            arithmetic(*compute),
            written(*show),
            k,
            derefs(metrics@),
        ),
{
    let first = metrics[0];
    assert(by_endpoint()(*metrics@[0]) == k);
    let requests = total_named(metrics, "http.requests", compute);
    let p95 = match last_p95(metrics) {
        Some(p) => p,
        None => {
            return None;
        },
    };
    if !requests.is_positive() || !valid(p95) {
        return None;
    }
    let impact = apply(compute, Op::Multiply(requests, p95));
    let mut evidence = chars_of("requests=");
    texted(&mut evidence, requests, 0, show);
    append_str(&mut evidence, " p95=");
    texted(&mut evidence, p95, 2, show);
    append_str(&mut evidence, "ms impact=");
    texted(&mut evidence, impact, 2, show);
    append_str(&mut evidence, "ms");
    Some(
        Bottleneck {
            category: "http",
            node: label(first, "node"),
            target: spaced(label(first, "method").as_str(), label(first, "route").as_str()),
            evidence: string_of(evidence.as_slice()),
            source: "alp/access-log",
            severity: impact,
            verify_metric: "http.request_duration{quantile=0.95}",
        },
    )
}

pub open spec fn option_view(b: Option<Bottleneck>) -> Option<SuspectView> {
    match b {
        Some(s) => Some(s@),
        None => None,
    }
}

fn statement_from<F: Fn(Op) -> Number, S: Fn(Number, u32) -> String>(
    metrics: &Vec<&Metric>,
    compute: &F,
    show: &S,
    Ghost(k): Ghost<TripleModel>,
) -> (r: Option<Bottleneck>)
    requires
        is_arithmetic(*compute),
        is_writer(*show),
        metrics@.len() > 0,
        forall|i: int| 0 <= i < metrics@.len() ==> by_statement()(*#[trigger] metrics@[i]) == k,
    ensures
        option_view(r) == statement_suspect(
            arithmetic(*compute),
            written(*show),
            k,
            derefs(metrics@),
        ),
{
    let first = metrics[0];
    assert(by_statement()(*metrics@[0]) == k);
    let calls = total_named(metrics, "db.query.calls", compute);
    let time = total_named(metrics, "db.query.total_duration", compute);
    if !valid(time) || !time.is_positive() {
        return None;
    }
    let mean = if calls.is_positive() {
        apply(compute, Op::Divide(time, calls))
    } else {
        Number::zero()
    };
    let mut evidence = chars_of("total=");
    texted(&mut evidence, time, 2, show);
    append_str(&mut evidence, "ms calls=");
    texted(&mut evidence, calls, 0, show);
    append_str(&mut evidence, " mean=");
    texted(&mut evidence, mean, 2, show);
    append_str(&mut evidence, "ms");
    Some(
        Bottleneck {
            category: "database",
            node: label(first, "node"),
            target: spaced(label(first, "engine").as_str(), label(first, "digest").as_str()),
            evidence: string_of(evidence.as_slice()),
            source: "slp/pg_stat_statements",
            severity: time,
            verify_metric: "db.query.total_duration",
        },
    )
}

fn http<F: Fn(Op) -> Number, S: Fn(Number, u32) -> String>(
    metrics: &[Metric],
    compute: &F,
    show: &S,
) -> (r: Vec<Bottleneck>)
    requires
        is_arithmetic(*compute),
        is_writer(*show),
    ensures
        suspect_views(r@) == endpoint_suspects(arithmetic(*compute), written(*show), metrics@),
{
    let ghost f = arithmetic(*compute);
    let ghost w = written(*show);
    let mut flags: Vec<bool> = Vec::new();
    let mut i: usize = 0;
    while i < metrics.len()
        invariant
            i <= metrics@.len(),
            flags@.len() == i,
            forall|j: int| 0 <= j < i ==> #[trigger] flags@[j] == has_route()(metrics@[j]),
        decreases metrics.len() - i,
    {
        flags.push(metrics[i].labels.has("route"));
        i += 1;
    }
    let chosen = keep(metrics, &flags, Ghost(has_route()));
    let ghost all = derefs(chosen@);
    let mut keys: Vec<Triple> = Vec::new();
    let mut j: usize = 0;
    while j < chosen.len()
        invariant
            j <= chosen@.len(),
            all == derefs(chosen@),
            models(keys@) == all.take(j as int).map_values(by_endpoint()),
        decreases chosen.len() - j,
    {
        let m = chosen[j];
        let ghost was = keys@;
        keys.push((label(m, "node"), (label(m, "method"), label(m, "route"))));
        assert(models(keys@) == models(was).push(by_endpoint()(all[j as int])));
        assert(all.take(j + 1).map_values(by_endpoint()) == all.take(j as int).map_values(
            by_endpoint(),
        ).push(by_endpoint()(all[j as int])));
        j += 1;
    }
    assert(all.take(j as int) == all);
    let groups = group_rows(&chosen, &keys, Ghost(by_endpoint()));
    let ghost names = distinct_sorted::<Triple>(all.map_values(by_endpoint()));
    let ghost each = |k: TripleModel| endpoint_suspect(f, w, k, with_key(all, by_endpoint(), k));
    let mut out: Vec<Bottleneck> = Vec::new();
    let mut g: usize = 0;
    assert(suspect_views(out@) == present(names.take(0).map_values(each)));
    while g < groups.len()
        invariant
            is_arithmetic(*compute),
            is_writer(*show),
            f == arithmetic(*compute),
            w == written(*show),
            g <= groups@.len(),
            names == distinct_sorted::<Triple>(all.map_values(by_endpoint())),
            each == (|k: TripleModel|
                endpoint_suspect(f, w, k, with_key(all, by_endpoint(), k))),
            groups@.len() == names.len(),
            forall|h: int|
                0 <= h < groups@.len() ==> derefs((#[trigger] groups@[h])@) == with_key(
                    all,
                    by_endpoint(),
                    names[h],
                ) && groups@[h]@.len() > 0,
            suspect_views(out@) == present(names.take(g as int).map_values(each)),
        decreases groups.len() - g,
    {
        let members = &groups[g];
        let ghost k = names[g as int];
        proof {
            let part = derefs(members@);
            assert forall|x: int| 0 <= x < members@.len() implies by_endpoint()(
                *#[trigger] members@[x],
            ) == k by {
                assert(part[x] == *members@[x]);
                with_key_holds(all, by_endpoint(), k, x);
            }
            assert(names.take(g + 1).map_values(each).drop_last() == names.take(
                g as int,
            ).map_values(each));
            assert(names.take(g + 1).map_values(each).last() == each(k));
        }
        if let Some(suspect) = endpoint_from(members, compute, show, Ghost(k)) {
            let ghost was = out@;
            out.push(suspect);
            assert(suspect_views(out@) == suspect_views(was).push(suspect@));
        }
        g += 1;
    }
    assert(names.take(g as int) == names);
    out
}

fn database<F: Fn(Op) -> Number, S: Fn(Number, u32) -> String>(
    metrics: &[Metric],
    compute: &F,
    show: &S,
) -> (r: Vec<Bottleneck>)
    requires
        is_arithmetic(*compute),
        is_writer(*show),
    ensures
        suspect_views(r@) == statement_suspects(arithmetic(*compute), written(*show), metrics@),
{
    let ghost f = arithmetic(*compute);
    let ghost w = written(*show);
    let mut flags: Vec<bool> = Vec::new();
    let mut i: usize = 0;
    while i < metrics.len()
        invariant
            i <= metrics@.len(),
            flags@.len() == i,
            forall|j: int| 0 <= j < i ==> #[trigger] flags@[j] == is_query_metric()(metrics@[j]),
        decreases metrics.len() - i,
    {
        let m = &metrics[i];
        flags.push(
            (same(m.name.as_str(), "db.query.calls") || same(
                m.name.as_str(),
                "db.query.total_duration",
            )) && m.labels.has("digest"),
        );
        i += 1;
    }
    let chosen = keep(metrics, &flags, Ghost(is_query_metric()));
    let ghost all = derefs(chosen@);
    let mut keys: Vec<Triple> = Vec::new();
    let mut j: usize = 0;
    while j < chosen.len()
        invariant
            j <= chosen@.len(),
            all == derefs(chosen@),
            models(keys@) == all.take(j as int).map_values(by_statement()),
        decreases chosen.len() - j,
    {
        let m = chosen[j];
        let ghost was = keys@;
        keys.push((label(m, "node"), (label(m, "engine"), label(m, "digest"))));
        assert(models(keys@) == models(was).push(by_statement()(all[j as int])));
        assert(all.take(j + 1).map_values(by_statement()) == all.take(j as int).map_values(
            by_statement(),
        ).push(by_statement()(all[j as int])));
        j += 1;
    }
    assert(all.take(j as int) == all);
    let groups = group_rows(&chosen, &keys, Ghost(by_statement()));
    let ghost names = distinct_sorted::<Triple>(all.map_values(by_statement()));
    let ghost each = |k: TripleModel| statement_suspect(f, w, k, with_key(all, by_statement(), k));
    let mut out: Vec<Bottleneck> = Vec::new();
    let mut g: usize = 0;
    assert(suspect_views(out@) == present(names.take(0).map_values(each)));
    while g < groups.len()
        invariant
            is_arithmetic(*compute),
            is_writer(*show),
            f == arithmetic(*compute),
            w == written(*show),
            g <= groups@.len(),
            names == distinct_sorted::<Triple>(all.map_values(by_statement())),
            each == (|k: TripleModel|
                statement_suspect(f, w, k, with_key(all, by_statement(), k))),
            groups@.len() == names.len(),
            forall|h: int|
                0 <= h < groups@.len() ==> derefs((#[trigger] groups@[h])@) == with_key(
                    all,
                    by_statement(),
                    names[h],
                ) && groups@[h]@.len() > 0,
            suspect_views(out@) == present(names.take(g as int).map_values(each)),
        decreases groups.len() - g,
    {
        let members = &groups[g];
        let ghost k = names[g as int];
        proof {
            let part = derefs(members@);
            assert forall|x: int| 0 <= x < members@.len() implies by_statement()(
                *#[trigger] members@[x],
            ) == k by {
                assert(part[x] == *members@[x]);
                with_key_holds(all, by_statement(), k, x);
            }
            assert(names.take(g + 1).map_values(each).drop_last() == names.take(
                g as int,
            ).map_values(each));
            assert(names.take(g + 1).map_values(each).last() == each(k));
        }
        if let Some(suspect) = statement_from(members, compute, show, Ghost(k)) {
            let ghost was = out@;
            out.push(suspect);
            assert(suspect_views(out@) == suspect_views(was).push(suspect@));
        }
        g += 1;
    }
    assert(names.take(g as int) == names);
    out
}

fn cpu<S: Fn(Number, u32) -> String>(metrics: &[Metric], show: &S) -> (r: Vec<Bottleneck>)
    requires
        is_writer(*show),
    ensures
        suspect_views(r@) == symbol_suspects(written(*show), metrics@),
{
    let ghost w = written(*show);
    let ghost each = |m: Metric| symbol_suspect(w, m);
    let mut out: Vec<Bottleneck> = Vec::new();
    let mut i: usize = 0;
    assert(suspect_views(out@) == present(metrics@.take(0).map_values(each)));
    while i < metrics.len()
        invariant
            is_writer(*show),
            w == written(*show),
            each == (|m: Metric| symbol_suspect(w, m)),
            i <= metrics@.len(),
            suspect_views(out@) == present(metrics@.take(i as int).map_values(each)),
        decreases metrics.len() - i,
    {
        let m = &metrics[i];
        proof {
            assert(metrics@.take(i + 1).map_values(each).drop_last() == metrics@.take(
                i as int,
            ).map_values(each));
            assert(metrics@.take(i + 1).map_values(each).last() == each(*m));
        }
        if (same(m.name.as_str(), "cpu.sample_percent") || same(m.name.as_str(), "cpu.samples"))
            && valid(m.value) && m.value.is_positive() {
            let mut evidence = chars_of("sample_share=");
            texted(&mut evidence, m.value, 2, show);
            append_str(&mut evidence, "%");
            let suspect = Bottleneck {
                category: "cpu",
                node: label(m, "node"),
                target: spaced(label(m, "binary").as_str(), label(m, "symbol").as_str()),
                evidence: string_of(evidence.as_slice()),
                source: "perf",
                severity: m.value,
                verify_metric: "cpu.sample_percent",
            };
            let ghost was = out@;
            out.push(suspect);
            assert(suspect_views(out@) == suspect_views(was).push(suspect@));
        }
        i += 1;
    }
    assert(metrics@.take(i as int) == metrics@);
    out
}

fn scale_of(m: &Metric) -> (r: Option<(String, &'static str, i64)>)
    ensures
        match r {
            Some((target, verify, full)) => host_scale(*m) == Some((target@, verify@, full)),
            None => host_scale(*m) is None,
        },
{
    let name = m.name.as_str();
    if same(name, "host.cpu_percent") {
        Some(("cpu".to_string(), "host.cpu_percent", 100))
    } else if same(name, "host.disk_util_percent") {
        let mut target = chars_of("disk ");
        append_str(&mut target, label(m, "device").as_str());
        append_str(&mut target, " util");
        Some((string_of(target.as_slice()), "host.disk_util_percent", 100))
    } else if same(name, "host.disk_await") {
        let mut target = chars_of("disk ");
        append_str(&mut target, label(m, "device").as_str());
        append_str(&mut target, " await");
        Some((string_of(target.as_slice()), "host.disk_await", 20))
    } else {
        None
    }
}

fn host<F: Fn(Op) -> Number, S: Fn(Number, u32) -> String>(
    metrics: &[Metric],
    compute: &F,
    show: &S,
) -> (r: Vec<Bottleneck>)
    requires
        is_arithmetic(*compute),
        is_writer(*show),
    ensures
        suspect_views(r@) == resource_suspects(arithmetic(*compute), written(*show), metrics@),
{
    let ghost f = arithmetic(*compute);
    let ghost w = written(*show);
    let ghost each = |m: Metric| resource_suspect(f, w, m);
    let mut out: Vec<Bottleneck> = Vec::new();
    let mut i: usize = 0;
    assert(suspect_views(out@) == present(metrics@.take(0).map_values(each)));
    while i < metrics.len()
        invariant
            is_arithmetic(*compute),
            is_writer(*show),
            f == arithmetic(*compute),
            w == written(*show),
            each == (|m: Metric| resource_suspect(f, w, m)),
            i <= metrics@.len(),
            suspect_views(out@) == present(metrics@.take(i as int).map_values(each)),
        decreases metrics.len() - i,
    {
        let m = &metrics[i];
        proof {
            assert(metrics@.take(i + 1).map_values(each).drop_last() == metrics@.take(
                i as int,
            ).map_values(each));
            assert(metrics@.take(i + 1).map_values(each).last() == each(*m));
        }
        if let Some((target, verify_metric, full)) = scale_of(m) {
            let whole = apply(compute, Op::Integer(full));
            let weight = apply(compute, Op::Divide(m.value, whole));
            if valid(weight) && weight.is_positive() {
                let mut evidence = chars_of(m.name.as_str());
                append_str(&mut evidence, "=");
                texted(&mut evidence, m.value, 2, show);
                append_str(&mut evidence, m.unit.as_str());
                let suspect = Bottleneck {
                    category: "host",
                    node: label(m, "node"),
                    target,
                    evidence: string_of(evidence.as_slice()),
                    source: "sysstat",
                    severity: weight,
                    verify_metric,
                };
                let ghost was = out@;
                out.push(suspect);
                assert(suspect_views(out@) == suspect_views(was).push(suspect@));
            }
        }
        i += 1;
    }
    assert(metrics@.take(i as int) == metrics@);
    out
}

fn rank_category<F: Fn(Op) -> Number>(suspects: Vec<Bottleneck>, compute: &F) -> (r: Vec<Bottleneck>)
    requires
        is_arithmetic(*compute),
    ensures
        suspect_views(r@) == ranked(arithmetic(*compute), suspect_views(suspects@)),
{
    let ghost f = arithmetic(*compute);
    let ghost views = suspect_views(suspects@);
    let mut most = Number::zero();
    let mut i: usize = 0;
    assert(views.take(0) == Seq::<SuspectView>::empty());
    while i < suspects.len()
        invariant
            i <= suspects@.len(),
            views == suspect_views(suspects@),
            most == dominant(views.take(i as int)),
        decreases suspects.len() - i,
    {
        assert(views.take(i + 1).drop_last() == views.take(i as int));
        assert(views.take(i + 1).last() == suspects@[i as int]@);
        most = Number::max(most, suspects[i].severity);
        i += 1;
    }
    assert(views.take(i as int) == views);
    let ghost all = suspects@;
    let ghost finish = scaled(f, most);
    let ghost view = |b: Bottleneck| b@;
    let ghost through = |b: Bottleneck| by_severity()(view(b));
    let mut out: Vec<Bottleneck> = Vec::new();
    let mut ranks: Vec<SeverityKey> = Vec::new();
    for suspect in it: suspects
        invariant
            is_arithmetic(*compute),
            f == arithmetic(*compute),
            it.seq() == all,
            views == suspect_views(all),
            finish == scaled(f, most),
            view == (|b: Bottleneck| b@),
            through == (|b: Bottleneck| by_severity()(view(b))),
            suspect_views(out@) == views.take(it.index() as int).map_values(finish),
            models(ranks@) == out@.map_values(through),
    {
        let ghost n = it.index() as int;
        assert(views[n] == suspect@);
        let mut suspect = suspect;
        if most.is_positive() {
            suspect.severity = apply(compute, Op::Divide(suspect.severity, most));
        }
        assert(suspect@ == finish(views[n]));
        let ghost was = out@;
        let ghost was_ranks = ranks@;
        ranks.push((Reverse { key: suspect.severity }, suspect.target.clone()));
        out.push(suspect);
        proof {
            assert(suspect_views(out@) == suspect_views(was).push(suspect@));
            assert(views.take(n + 1).map_values(finish) == views.take(n).map_values(finish).push(
                finish(views[n]),
            ));
            assert(models(ranks@) == models(was_ranks).push(through(suspect)));
            assert(out@.map_values(through) == was.map_values(through).push(through(suspect)));
        }
    }
    assert(views.take(views.len() as int) == views);
    proof {
        stable_sorted_through::<Bottleneck, SuspectView, SeverityKey>(out@, view, by_severity());
    }
    sort_by_keys(out, &ranks, Ghost(through))
}

fn copy_suspect(b: &Bottleneck) -> (r: Bottleneck)
    ensures
        r@ == b@,
{
    Bottleneck {
        category: b.category,
        node: b.node.clone(),
        target: b.target.clone(),
        evidence: b.evidence.clone(),
        source: b.source,
        severity: b.severity,
        verify_metric: b.verify_metric,
    }
}

fn add_head(heads: &mut Vec<Bottleneck>, list: &Vec<Bottleneck>)
    ensures
        suspect_views(final(heads)@) == suspect_views(old(heads)@) + head(suspect_views(list@)),
{
    let ghost before = heads@;
    if list.len() > 0 {
        let first = copy_suspect(&list[0]);
        heads.push(first);
        assert(suspect_views(heads@) == suspect_views(before).push(first@));
        assert(suspect_views(list@)[0] == first@);
        assert(suspect_views(before).push(first@) == suspect_views(before) + seq![first@]);
    } else {
        assert(suspect_views(before) + head(suspect_views(list@)) == suspect_views(before));
    }
}

fn is_named(heads: &Vec<Bottleneck>, b: &Bottleneck) -> (r: bool)
    ensures
        r == !not_named(suspect_views(heads@))(b@),
{
    let ghost views = suspect_views(heads@);
    let mut i: usize = 0;
    while i < heads.len()
        invariant
            i <= heads@.len(),
            views == suspect_views(heads@),
            forall|j: int| 0 <= j < i ==> !same_subject(#[trigger] views[j], b@),
        decreases heads.len() - i,
    {
        assert(views[i as int] == heads@[i as int]@);
        if same(heads[i].category, b.category) && same(
            heads[i].node.as_str(),
            b.node.as_str(),
        ) && same(heads[i].target.as_str(), b.target.as_str()) {
            return true;
        }
        i += 1;
    }
    false
}

fn add_rest(
    rest: &mut Vec<Bottleneck>,
    ranks: &mut Vec<CrossKey>,
    heads: &Vec<Bottleneck>,
    list: Vec<Bottleneck>,
)
    requires
        models(old(ranks)@) == old(rest)@.map_values(
            |b: Bottleneck| by_severity_and_category()((|b: Bottleneck| b@)(b)),
        ),
    ensures
        suspect_views(final(rest)@) == suspect_views(old(rest)@) + suspect_views(list@).filter(
            not_named(suspect_views(heads@)),
        ),
        models(final(ranks)@) == final(rest)@.map_values(
            |b: Bottleneck| by_severity_and_category()((|b: Bottleneck| b@)(b)),
        ),
{
    let ghost start = suspect_views(rest@);
    let ghost all = list@;
    let ghost views = suspect_views(all);
    let ghost p = not_named(suspect_views(heads@));
    let ghost through = |b: Bottleneck| by_severity_and_category()((|b: Bottleneck| b@)(b));
    proof {
        reveal(Seq::filter);
        assert(views.take(0) == Seq::<SuspectView>::empty());
        assert(start + views.take(0).filter(p) == start);
    }
    for b in it: list
        invariant
            it.seq() == all,
            views == suspect_views(all),
            p == not_named(suspect_views(heads@)),
            through == (|b: Bottleneck| by_severity_and_category()((|b: Bottleneck| b@)(b))),
            suspect_views(rest@) == start + views.take(it.index() as int).filter(p),
            models(ranks@) == rest@.map_values(through),
    {
        let ghost n = it.index() as int;
        proof {
            reveal(Seq::filter);
            assert(views.take(n + 1).drop_last() == views.take(n));
            assert(views.take(n + 1).last() == b@);
        }
        if !is_named(heads, &b) {
            let ghost was = rest@;
            let ghost was_ranks = ranks@;
            ranks.push(
                (Reverse { key: b.severity }, (b.category.to_string(), b.target.clone())),
            );
            rest.push(b);
            proof {
                assert(suspect_views(rest@) == suspect_views(was).push(b@));
                assert(start + views.take(n).filter(p).push(b@) == (start + views.take(n).filter(
                    p,
                )).push(b@));
                assert(models(ranks@) == models(was_ranks).push(through(b)));
                assert(rest@.map_values(through) == was.map_values(through).push(through(b)));
            }
        }
    }
    assert(views.take(views.len() as int) == views);
}

/// The coverage of the four categories.
pub open spec fn observed(
    coverage: Seq<Coverage>,
    http: bool,
    database: bool,
    cpu: bool,
    host: bool,
) -> bool {
    &&& coverage.len() == 4
    &&& coverage[0].category@ == "http"@ && coverage[0].available == http
    &&& coverage[1].category@ == "database"@ && coverage[1].available == database
    &&& coverage[2].category@ == "cpu"@ && coverage[2].available == cpu
    &&& coverage[3].category@ == "host"@ && coverage[3].available == host
}

/// Ranks suspicions across categories without adding unlike units together.
///
/// Severities are in proportion to the largest of their category. The strongest suspicion of each
/// observed category comes first, so that a hot endpoint does not hide a saturated disk.
pub fn rank<F: Fn(Op) -> Number, S: Fn(Number, u32) -> String>(
    metrics: &[Metric],
    compute: &F,
    show: &S,
) -> (r: Report)
    requires
        is_arithmetic(*compute),
        is_writer(*show),
    ensures
        ({
            let f = arithmetic(*compute);
            let w = written(*show);
            let http = ranked(f, endpoint_suspects(f, w, metrics@));
            let database = ranked(f, statement_suspects(f, w, metrics@));
            let cpu = ranked(f, symbol_suspects(w, metrics@));
            let host = ranked(f, resource_suspects(f, w, metrics@));
            &&& suspect_views(r.candidates@) == shortlist(http, database, cpu, host)
            &&& observed(
                r.coverage@,
                http.len() > 0,
                database.len() > 0,
                cpu.len() > 0,
                host.len() > 0,
            )
        }),
{
    let of_http = rank_category(http(metrics, compute, show), compute);
    let of_database = rank_category(database(metrics, compute, show), compute);
    let of_cpu = rank_category(cpu(metrics, show), compute);
    let of_host = rank_category(host(metrics, compute, show), compute);
    let ghost a = suspect_views(of_http@);
    let ghost b = suspect_views(of_database@);
    let ghost c = suspect_views(of_cpu@);
    let ghost d = suspect_views(of_host@);
    let mut coverage: Vec<Coverage> = Vec::new();
    coverage.push(Coverage { category: "http", available: of_http.len() > 0 });
    coverage.push(Coverage { category: "database", available: of_database.len() > 0 });
    coverage.push(Coverage { category: "cpu", available: of_cpu.len() > 0 });
    coverage.push(Coverage { category: "host", available: of_host.len() > 0 });
    let mut heads: Vec<Bottleneck> = Vec::new();
    assert(suspect_views(heads@) == Seq::<SuspectView>::empty());
    add_head(&mut heads, &of_http);
    assert(suspect_views(heads@) == head(a));
    add_head(&mut heads, &of_database);
    add_head(&mut heads, &of_cpu);
    add_head(&mut heads, &of_host);
    let ghost hs = suspect_views(heads@);
    assert(hs == head(a) + head(b) + head(c) + head(d));
    let ghost p = not_named(hs);
    let mut rest: Vec<Bottleneck> = Vec::new();
    let mut ranks: Vec<CrossKey> = Vec::new();
    assert(suspect_views(rest@) == Seq::<SuspectView>::empty());
    assert(models(ranks@) == rest@.map_values(
        |b: Bottleneck| by_severity_and_category()((|b: Bottleneck| b@)(b)),
    ));
    add_rest(&mut rest, &mut ranks, &heads, of_cpu);
    assert(suspect_views(rest@) == c.filter(p));
    add_rest(&mut rest, &mut ranks, &heads, of_database);
    add_rest(&mut rest, &mut ranks, &heads, of_host);
    add_rest(&mut rest, &mut ranks, &heads, of_http);
    let ghost view = |b: Bottleneck| b@;
    let ghost through = |b: Bottleneck| by_severity_and_category()(view(b));
    proof {
        Seq::filter_distributes_over_add(c, b, p);
        Seq::filter_distributes_over_add(c + b, d, p);
        Seq::filter_distributes_over_add(c + b + d, a, p);
        assert(suspect_views(rest@) == (c + b + d + a).filter(p));
        stable_sorted_through::<Bottleneck, SuspectView, CrossKey>(
            rest@,
            view,
            by_severity_and_category(),
        );
    }
    let mut sorted = sort_by_keys(rest, &ranks, Ghost(through));
    let ghost others = sorted@;
    let mut candidates = heads;
    let ghost firsts = candidates@;
    candidates.append(&mut sorted);
    let ghost list = candidates@;
    proof {
        assert(suspect_views(list) == suspect_views(firsts) + suspect_views(others));
    }
    candidates.truncate(DEFAULT_LIMIT);
    proof {
        let m = if list.len() <= 5 {
            list.len() as int
        } else {
            5
        };
        assert(candidates@ == list.take(m));
        assert(suspect_views(list.take(m)) == suspect_views(list).take(m));
    }
    Report { candidates, coverage }
}

/// Every observed category is represented before any category is represented twice.
pub proof fn every_category_is_represented(
    http: Seq<SuspectView>,
    database: Seq<SuspectView>,
    cpu: Seq<SuspectView>,
    host: Seq<SuspectView>,
)
    ensures
        shortlist(http, database, cpu, host).len() <= 5,
        http.len() > 0 ==> shortlist(http, database, cpu, host).contains(http[0]),
        database.len() > 0 ==> shortlist(http, database, cpu, host).contains(database[0]),
        cpu.len() > 0 ==> shortlist(http, database, cpu, host).contains(cpu[0]),
        host.len() > 0 ==> shortlist(http, database, cpu, host).contains(host[0]),
{
    let heads = head(http) + head(database) + head(cpu) + head(host);
    let all = cpu + database + host + http;
    let rest = stable_sorted::<SuspectView, CrossKey>(
        all.filter(not_named(heads)),
        by_severity_and_category(),
    );
    let list = shortlist(http, database, cpu, host);
    assert(heads.len() <= 4);
    assert forall|i: int| 0 <= i < heads.len() implies list[i] == #[trigger] heads[i] by {
        assert((heads + rest)[i] == heads[i]);
    }
    let a = head(http).len() as int;
    let b = a + head(database).len();
    let c = b + head(cpu).len();
    if http.len() > 0 {
        assert(heads[0] == http[0]);
        assert(list[0] == http[0]);
    }
    if database.len() > 0 {
        assert(heads[a] == database[0]);
        assert(list[a] == database[0]);
    }
    if cpu.len() > 0 {
        assert(heads[b] == cpu[0]);
        assert(list[b] == cpu[0]);
    }
    if host.len() > 0 {
        assert(heads[c] == host[0]);
        assert(list[c] == host[0]);
    }
}

} // verus!
