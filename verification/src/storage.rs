//! The records of runs that are kept.
use crate::benchmark::BenchmarkView;
use crate::bytes::byte_lines;
use crate::collector::{add_default, with_default};
use crate::compression::sound_output;
use crate::join::{chain, value_views};
use crate::json::JsonView;
use crate::labels::Labels;
use crate::model::{
    add_metric, on_calendar, AnalysisStatus, AnalysisVerdict, Fingerprint, LogRef, Metric,
    MetricView, RunAnalysis, RunManifest, RunState, TransitionView,
};
use crate::moment::Moment;
use crate::number::{apply, arithmetic, is_arithmetic, Number, Op};
use crate::paths::{join_path, joined_path};
use crate::protocol::{
    json_lines, parse_protocol, pick_fingerprint, pick_metric, pick_transition, picked,
    FingerprintView, Records,
};
use crate::report::text_option;
use crate::runner::{initialization_metric, PendingRun};
use crate::text::{
    chars_of, decimal, decimal_of, ends, ends_with, glue2, glue3, glue5, same, slice_of, starts,
    starts_with, string_of, texts,
};
use crate::transition::elapsed;
use vstd::prelude::*;

verus! {

/// A run in a list of runs.
#[derive(Clone, Debug)]
pub struct RunSummary {
    pub id: String,
    pub started_at: String,
    pub commit_hash: Option<String>,
    pub dirty: bool,
    pub mode: String,
    pub state: String,
    pub score: Option<i64>,
    pub passed: Option<bool>,
    pub tags: Vec<String>,
}

/// Where a run is kept while it goes on.
pub fn staging_dir(data_dir: &str, id: &str) -> (r: String)
    ensures
        r@ == join_path(join_path(data_dir@, "runs/.incomplete"@), id@),
{
    joined_path(joined_path(data_dir, "runs/.incomplete").as_str(), id)
}

/// Where a finished run is kept.
pub fn final_dir(data_dir: &str, id: &str) -> (r: String)
    ensures
        r@ == join_path(join_path(data_dir@, "runs"@), id@),
{
    joined_path(joined_path(data_dir, "runs").as_str(), id)
}

/// The mark that a run is in progress.
pub fn run_marker_path(data_dir: &str, id: &str) -> (r: String)
    ensures
        r@ == join_path(join_path(data_dir@, "runs/.incomplete"@), id@ + ".running"@),
{
    let name = glue2(id, ".running");
    joined_path(joined_path(data_dir, "runs/.incomplete").as_str(), name.as_str())
}

/// Gives up a run whose process is gone.
pub fn abandon(manifest: &mut RunManifest, now: Moment)
    ensures
        final(manifest).state == RunState::Aborted,
        final(manifest).finished_at == Some(now),
        final(manifest).benchmark@ == (BenchmarkView {
            passed: Some(false),
            interrupted: true,
            error: Some("recovered after an interrupted isuscope process"@),
            ..old(manifest).benchmark@
        }),
        *final(manifest) == (RunManifest {
            state: RunState::Aborted,
            finished_at: Some(now),
            benchmark: final(manifest).benchmark,
            ..*old(manifest)
        }),
{
    manifest.state = RunState::Aborted;
    manifest.finished_at = Some(now);
    manifest.benchmark.passed = Some(false);
    manifest.benchmark.interrupted = true;
    manifest.benchmark.error = Some("recovered after an interrupted isuscope process".to_owned());
}

/// More than one run fits a short identifier.
#[derive(Clone, Debug)]
pub struct AmbiguousRun {
    pub requested: String,
}

impl AmbiguousRun {
    pub fn message(&self) -> (r: String)
        ensures
            r@ == "run ID prefix `"@ + self.requested@ + "` is ambiguous"@,
    {
        glue3("run ID prefix `", self.requested.as_str(), "` is ambiguous")
    }
}

/// The run that is meant, of those that fit: none where there is none, and no guess where there are
/// several.
pub fn pick_run(requested: &str, matches: Vec<String>) -> (r: Result<Option<String>, AmbiguousRun>)
    ensures
        match r {
            Ok(None) => matches@.len() == 0,
            Ok(Some(id)) => matches@.len() == 1 && id == matches@[0],
            Err(error) => matches@.len() > 1 && error.requested@ == requested@,
        },
{
    let mut matches = matches;
    if matches.len() > 1 {
        return Err(AmbiguousRun { requested: requested.to_owned() });
    }
    Ok(matches.pop())
}

/// By what a run can be named.
#[derive(Clone, Debug)]
pub struct RunName {
    pub id: String,
    pub tags: Vec<String>,
}

/// What is asked for names the run: it begins or ends its identifier, or is one of its tags.
pub open spec fn names_it(requested: Seq<char>, run: RunName) -> bool {
    ||| starts(run.id@, requested)
    ||| ends(run.id@, requested)
    ||| texts(run.tags@).contains(requested)
}

pub open spec fn is_named(requested: Seq<char>) -> spec_fn(RunName) -> bool {
    |run: RunName| names_it(requested, run)
}

pub open spec fn has_id(id: Seq<char>) -> spec_fn(RunName) -> bool {
    |run: RunName| run.id@ == id
}

/// The run that is asked for, of those that are kept, the latest first: the latest, the one with
/// exactly this identifier, or the only one that is named so.
pub open spec fn found_run(requested: Seq<char>, runs: Seq<RunName>) -> Result<
    Option<Seq<char>>,
    (),
> {
    let named = runs.filter(is_named(requested));
    if requested == "latest"@ {
        Ok(
            if runs.len() > 0 {
                Some(runs[0].id@)
            } else {
                None
            },
        )
    } else if runs.filter(has_id(requested)).len() > 0 {
        Ok(Some(requested))
    } else if named.len() == 0 {
        Ok(None)
    } else if named.len() == 1 {
        Ok(Some(named[0].id@))
    } else {
        Err(())
    }
}

fn begins_or_ends(id: &str, part: &str) -> (r: bool)
    ensures
        r == (starts(id@, part@) || ends(id@, part@)),
{
    let whole = chars_of(id);
    let part = chars_of(part);
    starts_with(whole.as_slice(), part.as_slice()) || ends_with(
        whole.as_slice(),
        part.as_slice(),
    )
}

fn has_tag(tags: &Vec<String>, tag: &str) -> (r: bool)
    ensures
        r == texts(tags@).contains(tag@),
{
    let mut i: usize = 0;
    while i < tags.len()
        invariant
            i <= tags@.len(),
            forall|j: int| 0 <= j < i ==> (#[trigger] tags@[j])@ != tag@,
        decreases tags.len() - i,
    {
        if same(tags[i].as_str(), tag) {
            assert(texts(tags@)[i as int] == tag@);
            return true;
        }
        i += 1;
    }
    proof {
        if texts(tags@).contains(tag@) {
            let j = choose|j: int| 0 <= j < texts(tags@).len() && texts(tags@)[j] == tag@;
            assert(tags@[j]@ == tag@);
        }
    }
    false
}

/// Finds the run that is asked for, of those that are kept, the latest first.
pub fn find_run(requested: &str, runs: &Vec<RunName>) -> (r: Result<Option<String>, AmbiguousRun>)
    ensures
        match r {
            Ok(id) => found_run(requested@, runs@) == Ok::<_, ()>(text_option(id)),
            Err(error) => found_run(requested@, runs@) is Err && error.requested@ == requested@,
        },
{
    if same(requested, "latest") {
        return Ok(
            if runs.len() > 0 {
                Some(runs[0].id.clone())
            } else {
                None
            },
        );
    }
    let ghost exact = has_id(requested@);
    let ghost named = is_named(requested@);
    let mut matches: Vec<String> = Vec::new();
    let mut known = false;
    let mut i: usize = 0;
    proof {
        reveal(Seq::filter);
        assert(runs@.take(0) == Seq::<RunName>::empty());
    }
    while i < runs.len()
        invariant
            i <= runs@.len(),
            exact == has_id(requested@),
            named == is_named(requested@),
            known == (runs@.take(i as int).filter(exact).len() > 0),
            texts(matches@) == runs@.take(i as int).filter(named).map_values(|n: RunName| n.id@),
        decreases runs.len() - i,
    {
        let run = &runs[i];
        proof {
            reveal(Seq::filter);
            assert(runs@.take(i + 1).drop_last() == runs@.take(i as int));
            assert(runs@.take(i + 1).last() == *run);
        }
        if same(run.id.as_str(), requested) {
            known = true;
        }
        if begins_or_ends(run.id.as_str(), requested) || has_tag(&run.tags, requested) {
            let ghost before = runs@.take(i as int).filter(named);
            let ghost was = matches@;
            matches.push(run.id.clone());
            assert(texts(matches@) == texts(was).push(run.id@));
            assert(before.push(*run).map_values(|n: RunName| n.id@) == before.map_values(
                |n: RunName| n.id@,
            ).push(run.id@));
        }
        i += 1;
    }
    assert(runs@.take(i as int) == runs@);
    if known {
        return Ok(Some(requested.to_owned()));
    }
    assert(texts(matches@).len() == matches@.len());
    proof {
        if matches@.len() == 1 {
            assert(texts(matches@)[0] == matches@[0]@);
        }
    }
    pick_run(requested, matches)
}

/// A run is found by its identifier, whatever else is kept; by a beginning, an end or a tag that
/// no other run has; and never by one that another run has too, unless it is an identifier.
pub proof fn runs_are_found_by_their_names(requested: Seq<char>, runs: Seq<RunName>, i: int)
    requires
        0 <= i < runs.len(),
        requested != "latest"@,
        names_it(requested, runs[i]),
    ensures
        runs[i].id@ == requested ==> found_run(requested, runs) == Ok::<_, ()>(Some(requested)),
        (forall|j: int|
            0 <= j < runs.len() && j != i ==> !names_it(requested, #[trigger] runs[j]))
            ==> found_run(requested, runs) == Ok::<_, ()>(Some(runs[i].id@)),
        (forall|j: int| 0 <= j < runs.len() ==> (#[trigger] runs[j]).id@ != requested) && (exists|
            j: int,
        |
            0 <= j < runs.len() && j != i && names_it(requested, #[trigger] runs[j]))
            ==> found_run(requested, runs) is Err,
{
    let named = is_named(requested);
    let exact = has_id(requested);
    if runs[i].id@ == requested {
        runs.lemma_filter_contains(exact, i);
    }
    if forall|j: int| 0 <= j < runs.len() && j != i ==> !names_it(requested, #[trigger] runs[j]) {
        only_one_is_kept(runs, named, i);
        if runs.filter(exact).len() > 0 {
            let first = runs.filter(exact)[0];
            runs.lemma_filter_pred(exact, 0);
            assert(runs.filter(exact).contains(first));
            runs.lemma_filter_contains_rev(exact, first);
            let j = choose|j: int| 0 <= j < runs.len() && runs[j] == first;
            identifiers_name_their_run(runs[j]);
            assert(j == i);
        }
    }
    if (forall|j: int| 0 <= j < runs.len() ==> (#[trigger] runs[j]).id@ != requested) && (exists|
        j: int,
    |
        0 <= j < runs.len() && j != i && names_it(requested, #[trigger] runs[j])) {
        let j = choose|j: int|
            0 <= j < runs.len() && j != i && names_it(requested, #[trigger] runs[j]);
        if runs.filter(exact).len() > 0 {
            let first = runs.filter(exact)[0];
            runs.lemma_filter_pred(exact, 0);
            assert(runs.filter(exact).contains(first));
            runs.lemma_filter_contains_rev(exact, first);
        }
        two_are_kept(
            runs,
            named,
            if i < j {
                i
            } else {
                j
            },
            if i < j {
                j
            } else {
                i
            },
        );
    }
}

proof fn identifiers_name_their_run(run: RunName)
    ensures
        names_it(run.id@, run),
{
    assert(run.id@.take(run.id@.len() as int) == run.id@);
    assert(run.id@.subrange(0, run.id@.len() as int) == run.id@);
}

proof fn only_one_is_kept<T>(items: Seq<T>, p: spec_fn(T) -> bool, i: int)
    requires
        0 <= i < items.len(),
        p(items[i]),
        forall|j: int| 0 <= j < items.len() && j != i ==> !p(#[trigger] items[j]),
    ensures
        items.filter(p) == seq![items[i]],
    decreases items.len(),
{
    reveal(Seq::filter);
    let rest = items.drop_last();
    if i < rest.len() {
        assert forall|j: int| 0 <= j < rest.len() && j != i implies !p(#[trigger] rest[j]) by {
            assert(rest[j] == items[j]);
        }
        only_one_is_kept(rest, p, i);
        assert(!p(items[items.len() - 1]));
    } else {
        none_is_kept(rest, p);
        assert(items.filter(p) == seq![items[i]]);
    }
}

proof fn none_is_kept<T>(items: Seq<T>, p: spec_fn(T) -> bool)
    requires
        forall|j: int| 0 <= j < items.len() ==> !p(#[trigger] items[j]),
    ensures
        items.filter(p) == Seq::<T>::empty(),
    decreases items.len(),
{
    reveal(Seq::filter);
    if items.len() > 0 {
        let rest = items.drop_last();
        assert forall|j: int| 0 <= j < rest.len() implies !p(#[trigger] rest[j]) by {
            assert(rest[j] == items[j]);
        }
        none_is_kept(rest, p);
        assert(!p(items[items.len() - 1]));
    }
}

proof fn two_are_kept<T>(items: Seq<T>, p: spec_fn(T) -> bool, i: int, j: int)
    requires
        0 <= i < j < items.len(),
        p(items[i]),
        p(items[j]),
    ensures
        items.filter(p).len() > 1,
    decreases items.len(),
{
    reveal(Seq::filter);
    let rest = items.drop_last();
    if j < rest.len() {
        two_are_kept(rest, p, i, j);
    } else {
        rest.lemma_filter_contains(p, i);
    }
}

/// The log of the records of a collector.
pub open spec fn is_collector_output(kind: Seq<char>) -> bool {
    starts(kind, "collector:"@) && ends(kind, ":stdout"@)
}

/// The collector that a log comes from.
pub open spec fn collector_of(kind: Seq<char>) -> Option<Seq<char>> {
    if starts(kind, "collector:"@) && ends(kind.skip(10), ":stdout"@) {
        Some(kind.skip(10).take(kind.len() - 17))
    } else {
        None
    }
}

/// A metric of a log with its node and its collector, where it does not say so itself.
pub open spec fn restored(node: Option<Seq<char>>, collector: Option<Seq<char>>) -> spec_fn(
    MetricView,
) -> MetricView {
    |m: MetricView|
        {
            let a = match node {
                Some(n) => with_default(m.labels, "node"@, n),
                None => m.labels,
            };
            MetricView {
                labels: match collector {
                    Some(c) => with_default(a, "collector"@, c),
                    None => a,
                },
                ..m
            }
        }
}

pub open spec fn restored_print(node: Option<Seq<char>>) -> spec_fn(
    FingerprintView,
) -> FingerprintView {
    |p: FingerprintView|
        FingerprintView {
            labels: match node {
                Some(n) => with_default(p.labels, "node"@, n),
                None => p.labels,
            },
            ..p
        }
}

/// A log of a run and what is left of it.
#[derive(Debug)]
pub struct SavedOutput {
    pub log: LogRef,
    /// The compressed log, where it can be read.
    pub bytes: Option<Vec<u8>>,
}

/// The lines of a log that holds records.
pub open spec fn record_lines(saved: SavedOutput) -> Seq<Option<JsonView>> {
    match saved.bytes {
        Some(bytes) => if is_collector_output(saved.log.kind@) {
            json_lines(byte_lines(sound_output(bytes@)))
        } else {
            Seq::empty()
        },
        None => Seq::empty(),
    }
}

pub open spec fn metrics_in(f: spec_fn(Op) -> Number) -> spec_fn(SavedOutput) -> Seq<MetricView> {
    |saved: SavedOutput|
        picked(record_lines(saved), pick_metric(f)).map_values(
            restored(text_option(saved.log.node), collector_of(saved.log.kind@)),
        )
}

pub open spec fn fingerprints_in() -> spec_fn(SavedOutput) -> Seq<FingerprintView> {
    |saved: SavedOutput|
        picked(record_lines(saved), pick_fingerprint()).map_values(
            restored_print(text_option(saved.log.node)),
        )
}

pub open spec fn transitions_in() -> spec_fn(SavedOutput) -> Seq<TransitionView> {
    |saved: SavedOutput| picked(record_lines(saved), pick_transition())
}

/// The records of a run, read again from its logs.
pub open spec fn restored_records(
    f: spec_fn(Op) -> Number,
    logs: Seq<SavedOutput>,
    m: RunManifest,
    r: Records,
) -> bool {
    &&& value_views(r.metrics@) == chain(logs.map_values(metrics_in(f))) + initialization_metric(
        f,
        m.benchmark,
    )
    &&& value_views(r.fingerprints@) == chain(logs.map_values(fingerprints_in()))
    &&& value_views(r.transitions@) == chain(logs.map_values(transitions_in()))
}

fn name_of_collector(kind: &str) -> (r: Option<String>)
    ensures
        text_option(r) == collector_of(kind@),
{
    let chars = chars_of(kind);
    let head = chars_of("collector:");
    let tail = chars_of(":stdout");
    proof {
        reveal_strlit("collector:");
        reveal_strlit(":stdout");
        assert("collector:"@.len() == 10 && ":stdout"@.len() == 7);
    }
    if !starts_with(chars.as_slice(), head.as_slice()) {
        return None;
    }
    let rest = slice_of(chars.as_slice(), 10, chars.len());
    assert(rest@ == kind@.skip(10));
    if !ends_with(rest.as_slice(), tail.as_slice()) {
        return None;
    }
    let name = slice_of(rest.as_slice(), 0, rest.len() - 7);
    assert(name@ == kind@.skip(10).take(kind@.len() - 17));
    Some(string_of(name.as_slice()))
}

fn holds_records(kind: &str) -> (r: bool)
    ensures
        r == is_collector_output(kind@),
{
    let chars = chars_of(kind);
    starts_with(chars.as_slice(), chars_of("collector:").as_slice()) && ends_with(
        chars.as_slice(),
        chars_of(":stdout").as_slice(),
    )
}

fn restore_metrics(metrics: Vec<Metric>, node: &Option<String>, collector: &Option<String>) -> (r:
    Vec<Metric>)
    ensures
        value_views(r@) == value_views(metrics@).map_values(
            restored(text_option(*node), text_option(*collector)),
        ),
{
    let ghost each = restored(text_option(*node), text_option(*collector));
    let ghost source = metrics@;
    let ghost all = value_views(source);
    let mut out: Vec<Metric> = Vec::new();
    assert(value_views(out@) == all.take(0).map_values(each));
    for metric in it: metrics
        invariant
            it.seq() == source,
            all == value_views(source),
            each == restored(text_option(*node), text_option(*collector)),
            value_views(out@) == all.take(it.index() as int).map_values(each),
    {
        let ghost m = metric@;
        let mut labels = metric.labels;
        match node {
            Some(n) => {
                add_default(&mut labels, "node", n.as_str());
            },
            None => {},
        }
        match collector {
            Some(c) => {
                add_default(&mut labels, "collector", c.as_str());
            },
            None => {},
        }
        let kept = Metric {
            name: metric.name,
            value: metric.value,
            unit: metric.unit,
            timestamp: metric.timestamp,
            labels,
        };
        let ghost was = out@;
        out.push(kept);
        assert(kept@ == each(m));
        assert(value_views(out@) == value_views(was).push(kept@));
        assert(all.take(it.index() + 1).map_values(each) == all.take(
            it.index() as int,
        ).map_values(each).push(each(m)));
    }
    assert(all.take(all.len() as int) == all);
    out
}

fn restore_fingerprints(prints: Vec<Fingerprint>, node: &Option<String>) -> (r: Vec<Fingerprint>)
    ensures
        value_views(r@) == value_views(prints@).map_values(restored_print(text_option(*node))),
{
    let ghost each = restored_print(text_option(*node));
    let ghost source = prints@;
    let ghost all = value_views(source);
    let mut out: Vec<Fingerprint> = Vec::new();
    assert(value_views(out@) == all.take(0).map_values(each));
    for print in it: prints
        invariant
            it.seq() == source,
            all == value_views(source),
            each == restored_print(text_option(*node)),
            value_views(out@) == all.take(it.index() as int).map_values(each),
    {
        let ghost p = print@;
        let mut labels = print.labels;
        match node {
            Some(n) => {
                add_default(&mut labels, "node", n.as_str());
            },
            None => {},
        }
        let kept = Fingerprint { name: print.name, value: print.value, labels };
        let ghost was = out@;
        out.push(kept);
        assert(kept@ == each(p));
        assert(value_views(out@) == value_views(was).push(kept@));
        assert(all.take(it.index() + 1).map_values(each) == all.take(
            it.index() as int,
        ).map_values(each).push(each(p)));
    }
    assert(all.take(all.len() as int) == all);
    out
}

fn records_in<F: Fn(Op) -> Number>(saved: &SavedOutput, compute: &F) -> (r: Records)
    requires
        is_arithmetic(*compute),
    ensures
        value_views(r.metrics@) == metrics_in(arithmetic(*compute))(*saved),
        value_views(r.fingerprints@) == fingerprints_in()(*saved),
        value_views(r.transitions@) == transitions_in()(*saved),
{
    let bytes = match &saved.bytes {
        Some(bytes) => bytes,
        None => {
            let none = Records {
                metrics: Vec::new(),
                fingerprints: Vec::new(),
                transitions: Vec::new(),
            };
            assert(value_views(none.metrics@) == metrics_in(arithmetic(*compute))(*saved));
            assert(value_views(none.fingerprints@) == fingerprints_in()(*saved));
            assert(value_views(none.transitions@) == transitions_in()(*saved));
            return none;
        },
    };
    if !holds_records(saved.log.kind.as_str()) {
        let none = Records {
            metrics: Vec::new(),
            fingerprints: Vec::new(),
            transitions: Vec::new(),
        };
        assert(value_views(none.metrics@) == metrics_in(arithmetic(*compute))(*saved));
        assert(value_views(none.fingerprints@) == fingerprints_in()(*saved));
        assert(value_views(none.transitions@) == transitions_in()(*saved));
        return none;
    }
    let records = parse_protocol(bytes.as_slice(), compute);
    let collector = name_of_collector(saved.log.kind.as_str());
    Records {
        metrics: restore_metrics(records.metrics, &saved.log.node, &collector),
        fingerprints: restore_fingerprints(records.fingerprints, &saved.log.node),
        transitions: records.transitions,
    }
}

fn append_records(all: &mut Records, more: Records)
    ensures
        value_views(final(all).metrics@) == value_views(old(all).metrics@) + value_views(
            more.metrics@,
        ),
        value_views(final(all).fingerprints@) == value_views(old(all).fingerprints@) + value_views(
            more.fingerprints@,
        ),
        value_views(final(all).transitions@) == value_views(old(all).transitions@) + value_views(
            more.transitions@,
        ),
{
    let ghost before = *all;
    let ghost given = more;
    let mut more = more;
    all.metrics.append(&mut more.metrics);
    all.fingerprints.append(&mut more.fingerprints);
    all.transitions.append(&mut more.transitions);
    assert(value_views(all.metrics@) == value_views(before.metrics@) + value_views(given.metrics@));
    assert(value_views(all.fingerprints@) == value_views(before.fingerprints@) + value_views(
        given.fingerprints@,
    ));
    assert(value_views(all.transitions@) == value_views(before.transitions@) + value_views(
        given.transitions@,
    ));
}

/// Reads the records of a run again from its logs.
pub fn structured_records_from_logs<F: Fn(Op) -> Number>(
    logs: &Vec<SavedOutput>,
    m: &RunManifest,
    compute: &F,
) -> (r: Records)
    requires
        is_arithmetic(*compute),
        on_calendar(m.benchmark.initialize_started_at),
        on_calendar(m.benchmark.initialize_finished_at),
    ensures
        restored_records(arithmetic(*compute), logs@, *m, r),
{
    let ghost f = arithmetic(*compute);
    let mut all = Records {
        metrics: Vec::new(),
        fingerprints: Vec::new(),
        transitions: Vec::new(),
    };
    let mut i: usize = 0;
    proof {
        assert(logs@.take(0).map_values(metrics_in(f)) == Seq::<Seq<MetricView>>::empty());
        assert(logs@.take(0).map_values(fingerprints_in()) == Seq::<Seq<FingerprintView>>::empty());
        assert(logs@.take(0).map_values(transitions_in()) == Seq::<Seq<TransitionView>>::empty());
        assert(value_views(all.metrics@) == Seq::<MetricView>::empty());
        assert(value_views(all.fingerprints@) == Seq::<FingerprintView>::empty());
        assert(value_views(all.transitions@) == Seq::<TransitionView>::empty());
    }
    while i < logs.len()
        invariant
            i <= logs@.len(),
            is_arithmetic(*compute),
            f == arithmetic(*compute),
            value_views(all.metrics@) == chain(logs@.take(i as int).map_values(metrics_in(f))),
            value_views(all.fingerprints@) == chain(
                logs@.take(i as int).map_values(fingerprints_in()),
            ),
            value_views(all.transitions@) == chain(
                logs@.take(i as int).map_values(transitions_in()),
            ),
        decreases logs.len() - i,
    {
        let more = records_in(&logs[i], compute);
        proof {
            let a = logs@.take(i + 1).map_values(metrics_in(f));
            assert(a.drop_last() == logs@.take(i as int).map_values(metrics_in(f)));
            assert(a.last() == metrics_in(f)(logs@[i as int]));
            let b = logs@.take(i + 1).map_values(fingerprints_in());
            assert(b.drop_last() == logs@.take(i as int).map_values(fingerprints_in()));
            assert(b.last() == fingerprints_in()(logs@[i as int]));
            let c = logs@.take(i + 1).map_values(transitions_in());
            assert(c.drop_last() == logs@.take(i as int).map_values(transitions_in()));
            assert(c.last() == transitions_in()(logs@[i as int]));
        }
        append_records(&mut all, more);
        i += 1;
    }
    assert(logs@.take(i as int) == logs@);
    let ghost before = value_views(all.metrics@);
    match (m.benchmark.initialize_started_at, m.benchmark.initialize_finished_at) {
        (Some(start), Some(end)) => {
            let micros = elapsed(start, end);
            let size = apply(compute, Op::Integer(micros));
            let thousand = apply(compute, Op::Integer(1000));
            let value = apply(compute, Op::Divide(size, thousand));
            let labels: Labels = Labels::new();
            add_metric(
                &mut all.metrics,
                "benchmark.initialize_duration",
                value,
                "ms",
                None,
                &labels,
            );
            assert(value_views(all.metrics@) == before + initialization_metric(f, m.benchmark));
        },
        _ => {
            assert(before + Seq::<MetricView>::empty() == before);
        },
    }
    all
}

/// The counts of a record differ from what was read again.
pub open spec fn counts_differ(m: RunManifest, metrics: nat, prints: nat, transitions: nat) -> bool {
    m.metric_count != metrics || m.fingerprint_count != prints || m.transition_count != transitions
}

pub open spec fn pair_of(a: nat, b: nat) -> Seq<char> {
    decimal(a) + "/"@ + decimal(b)
}

pub open spec fn difference_text(
    m: RunManifest,
    metrics: nat,
    prints: nat,
    transitions: nat,
) -> Seq<char> {
    "! recovered structured rows differ from manifest for "@ + m.id@ + ": metrics "@ + pair_of(
        metrics,
        m.metric_count as nat,
    ) + ", fingerprints "@ + pair_of(prints, m.fingerprint_count as nat) + ", transitions "@
        + pair_of(transitions, m.transition_count as nat)
}

fn pair_text(a: usize, b: usize) -> (r: String)
    ensures
        r@ == pair_of(a as nat, b as nat),
{
    let x = string_of(decimal_of(a as u64).as_slice());
    let y = string_of(decimal_of(b as u64).as_slice());
    glue3(x.as_str(), "/", y.as_str())
}

/// Warns where the logs of a run do not give as much as its record counts.
pub fn recovery_warning(m: &RunManifest, r: &Records) -> (out: Option<String>)
    ensures
        text_option(out) == (if counts_differ(
            *m,
            r.metrics@.len(),
            r.fingerprints@.len(),
            r.transitions@.len(),
        ) {
            Some(
                difference_text(
                    *m,
                    r.metrics@.len(),
                    r.fingerprints@.len(),
                    r.transitions@.len(),
                ),
            )
        } else {
            None
        }),
{
    if r.metrics.len() == m.metric_count && r.fingerprints.len() == m.fingerprint_count
        && r.transitions.len() == m.transition_count {
        return None;
    }
    let a = pair_text(r.metrics.len(), m.metric_count);
    let b = pair_text(r.fingerprints.len(), m.fingerprint_count);
    let c = pair_text(r.transitions.len(), m.transition_count);
    let head = glue5(
        "! recovered structured rows differ from manifest for ",
        m.id.as_str(),
        ": metrics ",
        a.as_str(),
        ", fingerprints ",
    );
    Some(glue2(glue3(head.as_str(), b.as_str(), ", transitions ").as_str(), c.as_str()))
}

/// The run passed, and waits for its analysis.
pub open spec fn awaits() -> spec_fn(RunManifest) -> bool {
    |m: RunManifest| m.analysis_status == AnalysisStatus::Pending && m.state != RunState::Running
}

pub open spec fn pending_view(p: PendingRun) -> (Seq<char>, Seq<char>) {
    (p.id@, p.hypothesis@)
}

/// The finished runs that await their analysis, in their order.
pub fn pending_analyses(runs: &Vec<RunManifest>) -> (r: Vec<PendingRun>)
    ensures
        r@.map_values(|p: PendingRun| pending_view(p)) == runs@.filter(awaits()).map_values(
            |m: RunManifest| (m.id@, m.hypothesis@),
        ),
{
    let ghost view = |p: PendingRun| pending_view(p);
    let ghost named = |m: RunManifest| (m.id@, m.hypothesis@);
    let mut out: Vec<PendingRun> = Vec::new();
    let mut i: usize = 0;
    proof {
        reveal(Seq::filter);
        assert(runs@.take(0) == Seq::<RunManifest>::empty());
        assert(out@.map_values(view) == runs@.take(0).filter(awaits()).map_values(named));
    }
    while i < runs.len()
        invariant
            i <= runs@.len(),
            view == (|p: PendingRun| pending_view(p)),
            named == (|m: RunManifest| (m.id@, m.hypothesis@)),
            out@.map_values(view) == runs@.take(i as int).filter(awaits()).map_values(named),
        decreases runs.len() - i,
    {
        let run = &runs[i];
        let ghost head = runs@.take(i as int).filter(awaits());
        proof {
            reveal(Seq::filter);
            assert(runs@.take(i + 1).drop_last() == runs@.take(i as int));
            assert(runs@.take(i + 1).last() == *run);
        }
        if run.analysis_status == AnalysisStatus::Pending && run.state != RunState::Running {
            let ghost was = out@;
            let p = PendingRun { id: run.id.clone(), hypothesis: run.hypothesis.clone() };
            out.push(p);
            assert(out@.map_values(view) == was.map_values(view).push(pending_view(p)));
            assert(head.push(*run).map_values(named) == head.map_values(named).push(
                (run.id@, run.hypothesis@),
            ));
        }
        i += 1;
    }
    assert(runs@.take(i as int) == runs@);
    out
}

/// A run that did not pass has nothing to analyze.
#[derive(Clone, Debug)]
pub struct NotPassed {
    pub run_id: String,
}

impl NotPassed {
    pub fn message(&self) -> (r: String)
        ensures
            r@ == "run "@ + self.run_id@ + " did not pass; it needs no analysis"@,
    {
        glue3("run ", self.run_id.as_str(), " did not pass; it needs no analysis")
    }
}

/// Adds an analysis to a run that passed. Earlier analyses stay.
pub fn append_analysis(m: &mut RunManifest, analysis: RunAnalysis) -> (r: Result<(), NotPassed>)
    ensures
        match r {
            Ok(_) => {
                &&& old(m).benchmark.passed == Some(true)
                &&& final(m).analyses@ == old(m).analyses@.push(analysis)
                &&& *final(m) == (RunManifest {
                    analyses: final(m).analyses,
                    analysis_status: if analysis.verdict == AnalysisVerdict::Skipped {
                        AnalysisStatus::Skipped
                    } else {
                        AnalysisStatus::Complete
                    },
                    ..*old(m)
                })
            },
            Err(error) => {
                &&& old(m).benchmark.passed != Some(true)
                &&& error.run_id@ == old(m).id@
                &&& *final(m) == *old(m)
            },
        },
{
    let passed = match m.benchmark.passed {
        Some(passed) => passed,
        None => false,
    };
    if !passed {
        return Err(NotPassed { run_id: m.id.clone() });
    }
    m.analysis_status = if analysis.verdict == AnalysisVerdict::Skipped {
        AnalysisStatus::Skipped
    } else {
        AnalysisStatus::Complete
    };
    m.analyses.push(analysis);
    Ok(())
}

} // verus!
